use tetris::catalog::{spawn, KIND_I, KIND_L, KIND_O, KIND_T, NO_KIND, NUM_KINDS};
use tetris::progression::{
    interval_elapsed, lines_for_level, time_for_level, LEVEL_LINES, LEVEL_TIMES, MAX_LEVEL,
};
use tetris::session::{is_time_over, Tetris, MAX_LOCK_AWARD};

fn blank() -> Vec<u8> {
    vec![0u8; 10]
}

fn full(colour: u8) -> Vec<u8> {
    vec![colour; 10]
}

#[test]
fn new_game_starts_empty_at_level_one() {
    let tetris = Tetris::new();
    assert_eq!(tetris.game_map, vec![blank(); 16]);
    assert_eq!(tetris.current_level, 1);
    assert_eq!(tetris.score, 0);
    assert_eq!(tetris.num_lines, 0);
    assert!(tetris.current_piece.is_none());
    assert_eq!(tetris.previous_kind, NO_KIND);
}

#[test]
fn update_score_adds() {
    let mut tetris = Tetris::new();
    tetris.update_score(7);
    tetris.update_score(1000);
    assert_eq!(tetris.score, 1007);
    tetris.update_score(0);
    assert_eq!(tetris.score, 1007);
    assert_eq!((tetris.num_lines, tetris.current_level), (0, 1));
}

#[test]
fn inc_level_stops_at_the_last_level() {
    let mut tetris = Tetris::new();
    for expected in 2..=10 {
        tetris.inc_level();
        assert_eq!(tetris.current_level, expected);
    }
    tetris.inc_level();
    assert_eq!(tetris.current_level, MAX_LEVEL);
}

#[test]
fn inc_line_raises_the_level_above_the_threshold() {
    let mut tetris = Tetris::new();
    for _ in 0..20 {
        tetris.inc_line();
    }
    assert_eq!((tetris.num_lines, tetris.current_level), (20, 1));
    tetris.inc_line();
    assert_eq!((tetris.num_lines, tetris.current_level), (21, 2));
    for _ in 0..19 {
        tetris.inc_line();
    }
    assert_eq!((tetris.num_lines, tetris.current_level), (40, 2));
    tetris.inc_line();
    assert_eq!((tetris.num_lines, tetris.current_level), (41, 3));
}

#[test]
fn inc_line_at_the_last_level_keeps_the_level() {
    let mut tetris = Tetris::new();
    tetris.current_level = 10;
    tetris.num_lines = 200;
    tetris.inc_line();
    assert_eq!((tetris.num_lines, tetris.current_level), (201, 10));
    tetris.inc_line();
    assert_eq!((tetris.num_lines, tetris.current_level), (202, 10));
}

#[test]
fn inc_line_raises_one_level_at_a_time() {
    let mut tetris = Tetris::new();
    tetris.num_lines = 150;
    tetris.inc_line();
    assert_eq!((tetris.num_lines, tetris.current_level), (151, 2));
    tetris.inc_line();
    assert_eq!((tetris.num_lines, tetris.current_level), (152, 3));
}

#[test]
fn tables_are_read_at_level_minus_one_and_held_inside() {
    assert_eq!(LEVEL_LINES, [20, 40, 60, 80, 100, 120, 140, 160, 180, 200]);
    assert_eq!(LEVEL_TIMES, [1000, 850, 750, 650, 600, 550, 500, 400, 350, 300]);
    for level in 1..=10u32 {
        assert_eq!(lines_for_level(level), 20 * level);
        assert_eq!(time_for_level(level), LEVEL_TIMES[level as usize - 1]);
    }
    assert_eq!(lines_for_level(0), 20);
    assert_eq!(lines_for_level(11), 200);
    assert_eq!(time_for_level(0), 1000);
    assert_eq!(time_for_level(u32::MAX), 300);
}

#[test]
fn time_is_over_only_beyond_the_interval_of_the_level() {
    let mut tetris = Tetris::new();
    assert!(!is_time_over(&tetris, Some((0, 999_999_999))));
    assert!(!is_time_over(&tetris, Some((1, 0))));
    assert!(!is_time_over(&tetris, Some((1, 999_999))));
    assert!(is_time_over(&tetris, Some((1, 1_000_000))));
    assert!(is_time_over(&tetris, Some((2, 0))));
    assert!(is_time_over(&tetris, Some((u64::MAX, 0))));
    assert!(!is_time_over(&tetris, None));
    tetris.current_level = 10;
    assert!(!is_time_over(&tetris, Some((0, 300_999_999))));
    assert!(is_time_over(&tetris, Some((0, 301_000_000))));
    tetris.current_level = 2;
    assert!(!is_time_over(&tetris, Some((0, 850_000_000))));
    assert!(is_time_over(&tetris, Some((0, 851_000_000))));
    assert!(interval_elapsed(3, 0, 751_000_000));
    assert!(!interval_elapsed(3, 0, 750_000_000));
}

#[test]
fn check_lines_keeps_a_board_without_complete_rows() {
    let mut tetris = Tetris::new();
    tetris.game_map[15] = vec![1, 1, 1, 0, 1, 1, 1, 1, 1, 1];
    tetris.game_map[14][0] = 5;
    let before = tetris.clone();
    tetris.check_lines();
    assert_eq!(tetris, before);
}

#[test]
fn filling_the_gap_of_the_last_row_clears_it() {
    let mut tetris = Tetris::new();
    tetris.current_level = 3;
    tetris.game_map[15] = vec![2, 2, 2, 0, 2, 2, 2, 2, 2, 2];
    tetris.game_map[14][7] = 4;
    let mut piece = spawn(KIND_I);
    piece.current_state = 1;
    piece.x = 3;
    piece.y = 12;
    assert!(piece.test_current_position(&tetris.game_map));
    tetris.merge_piece(&piece);
    assert_eq!(tetris.game_map[15], vec![2, 2, 2, 1, 2, 2, 2, 2, 2, 2]);
    assert_eq!(tetris.score, 0);
    tetris.check_lines();
    assert_eq!(tetris.score, 3);
    assert_eq!(tetris.num_lines, 1);
    assert_eq!(tetris.current_level, 3);
    assert_eq!(tetris.game_map.len(), 16);
    assert_eq!(tetris.game_map[0], blank());
    assert_eq!(tetris.game_map[12], blank());
    assert_eq!(tetris.game_map[13], vec![0, 0, 0, 1, 0, 0, 0, 0, 0, 0]);
    assert_eq!(tetris.game_map[14], vec![0, 0, 0, 1, 0, 0, 0, 0, 0, 0]);
    assert_eq!(tetris.game_map[15], vec![0, 0, 0, 1, 0, 0, 0, 4, 0, 0]);
}

#[test]
fn clearing_the_whole_board_gives_the_bonus() {
    let mut tetris = Tetris::new();
    tetris.current_level = 2;
    tetris.game_map = vec![full(6); 16];
    tetris.check_lines();
    assert_eq!(tetris.score, 16 * 2 + 1000);
    assert_eq!(tetris.num_lines, 16);
    assert_eq!(tetris.current_level, 2);
    assert_eq!(tetris.game_map, vec![blank(); 16]);
}

#[test]
fn full_board_merged_once_more_then_cleared() {
    let mut tetris = Tetris::new();
    tetris.game_map = vec![full(6); 16];
    tetris.num_lines = 10;
    tetris.current_piece = Some(spawn(KIND_T));
    tetris.make_permanent();
    // level 1 for the landing, level 1 for each of the 16 rows, and the bonus
    assert_eq!(tetris.score, 1 + 16 + 1000);
    // the count passes 20 at the eleventh row, and the level rises once
    assert_eq!(tetris.num_lines, 26);
    assert_eq!(tetris.current_level, 2);
    assert_eq!(tetris.game_map, vec![blank(); 16]);
    assert!(tetris.current_piece.is_none());
}

#[test]
fn rows_are_scored_at_the_level_before_the_clear() {
    let mut tetris = Tetris::new();
    tetris.num_lines = 19;
    tetris.current_level = 1;
    tetris.game_map[12] = full(1);
    tetris.game_map[13] = full(2);
    tetris.game_map[14] = vec![0, 3, 3, 3, 3, 3, 3, 3, 3, 3];
    tetris.game_map[15] = full(4);
    tetris.check_lines();
    assert_eq!(tetris.score, 3);
    assert_eq!(tetris.num_lines, 22);
    assert_eq!(tetris.current_level, 2);
    let mut expected = vec![blank(); 16];
    expected[15] = vec![0, 3, 3, 3, 3, 3, 3, 3, 3, 3];
    assert_eq!(tetris.game_map, expected);
}

#[test]
fn rows_between_cleared_rows_keep_their_order() {
    let mut tetris = Tetris::new();
    tetris.game_map[3] = vec![1, 0, 0, 0, 0, 0, 0, 0, 0, 0];
    tetris.game_map[4] = full(7);
    tetris.game_map[5] = full(7);
    tetris.game_map[6] = vec![2, 2, 0, 0, 0, 0, 0, 0, 0, 0];
    tetris.game_map[7] = full(5);
    tetris.game_map[8] = vec![3, 3, 3, 0, 0, 0, 0, 0, 0, 0];
    tetris.check_lines();
    let mut expected = vec![blank(); 16];
    expected[6] = vec![1, 0, 0, 0, 0, 0, 0, 0, 0, 0];
    expected[7] = vec![2, 2, 0, 0, 0, 0, 0, 0, 0, 0];
    expected[8] = vec![3, 3, 3, 0, 0, 0, 0, 0, 0, 0];
    assert_eq!(tetris.game_map, expected);
    assert_eq!((tetris.score, tetris.num_lines, tetris.current_level), (3, 3, 1));
}

#[test]
fn merge_passes_over_cells_outside_the_board() {
    let mut tetris = Tetris::new();
    let mut piece = spawn(KIND_I);
    piece.x = 8;
    piece.y = 2;
    tetris.merge_piece(&piece);
    let mut expected = vec![blank(); 16];
    expected[2][8] = 1;
    expected[2][9] = 1;
    assert_eq!(tetris.game_map, expected);
    let mut left = spawn(KIND_I);
    left.x = -2;
    left.y = 5;
    tetris.merge_piece(&left);
    expected[5][0] = 1;
    expected[5][1] = 1;
    assert_eq!(tetris.game_map, expected);
    let mut low = spawn(KIND_L);
    low.x = 0;
    low.y = 14;
    tetris.merge_piece(&low);
    expected[14][0] = 7;
    expected[15][0] = 7;
    assert_eq!(tetris.game_map, expected);
    let mut below = spawn(KIND_O);
    below.y = 16;
    tetris.merge_piece(&below);
    below.y = usize::MAX;
    below.x = isize::MIN;
    tetris.merge_piece(&below);
    assert_eq!(tetris.game_map, expected);
    assert_eq!((tetris.score, tetris.num_lines, tetris.current_level), (0, 0, 1));
}

#[test]
fn merge_writes_the_colour_over_what_is_there() {
    let mut tetris = Tetris::new();
    tetris.game_map[0][4] = 6;
    tetris.game_map[1][4] = 6;
    let piece = spawn(KIND_T);
    tetris.merge_piece(&piece);
    assert_eq!(tetris.game_map[0], vec![0, 0, 0, 0, 3, 3, 3, 0, 0, 0]);
    assert_eq!(tetris.game_map[1], vec![0, 0, 0, 0, 6, 3, 0, 0, 0, 0]);
}

#[test]
fn make_permanent_gives_the_level_for_the_landing() {
    let mut tetris = Tetris::new();
    tetris.current_level = 4;
    let mut piece = spawn(KIND_O);
    piece.y = 14;
    tetris.current_piece = Some(piece);
    tetris.make_permanent();
    assert_eq!(tetris.score, 4);
    assert_eq!(tetris.num_lines, 0);
    assert!(tetris.current_piece.is_none());
    assert_eq!(tetris.game_map[14], vec![0, 0, 0, 0, 0, 2, 2, 0, 0, 0]);
    assert_eq!(tetris.game_map[15], vec![0, 0, 0, 0, 0, 2, 2, 0, 0, 0]);
}

#[test]
fn make_permanent_without_a_piece_only_clears() {
    let mut tetris = Tetris::new();
    tetris.current_level = 5;
    tetris.game_map[15] = full(3);
    tetris.make_permanent();
    assert_eq!(tetris.score, 5);
    assert_eq!(tetris.num_lines, 1);
    assert_eq!(tetris.game_map, vec![blank(); 16]);
}

#[test]
fn step_down_moves_the_piece_until_it_lands() {
    let mut tetris = Tetris::new();
    tetris.current_piece = Some(spawn(KIND_I));
    for row in 1..=15 {
        assert!(!tetris.step_down());
        let piece = tetris.current_piece.clone().unwrap();
        assert_eq!((piece.x, piece.y), (4, row));
    }
    assert!(tetris.step_down());
    assert!(tetris.current_piece.is_none());
    assert_eq!(tetris.game_map[15], vec![0, 0, 0, 0, 1, 1, 1, 1, 0, 0]);
    assert_eq!(tetris.score, 1);
    assert!(!tetris.step_down());
    assert_eq!(tetris.score, 1);
}

#[test]
fn spawn_piece_brings_a_piece_into_play() {
    let mut tetris = Tetris::new();
    assert!(tetris.spawn_piece());
    let piece = tetris.current_piece.clone().unwrap();
    assert!(tetris.previous_kind < NUM_KINDS);
    assert_eq!(piece, spawn(tetris.previous_kind));
    let before = tetris.clone();
    assert!(tetris.spawn_piece());
    assert_eq!(tetris, before);
}

#[test]
fn spawn_piece_on_a_blocked_board_ends_the_game() {
    let mut tetris = Tetris::new();
    tetris.game_map[0] = vec![0, 0, 0, 0, 1, 1, 1, 1, 0, 0];
    tetris.game_map[1] = vec![0, 0, 0, 0, 1, 1, 1, 1, 0, 0];
    let board = tetris.game_map.clone();
    assert!(!tetris.spawn_piece());
    assert!(tetris.current_piece.is_none());
    assert!(tetris.previous_kind < NUM_KINDS);
    assert_eq!(tetris.game_map, board);
    assert_eq!((tetris.score, tetris.num_lines, tetris.current_level), (0, 0, 1));
}

#[test]
fn most_points_of_one_lock() {
    let mut tetris = Tetris::new();
    tetris.current_level = 10;
    tetris.num_lines = 500;
    tetris.game_map = vec![full(1); 16];
    tetris.current_piece = Some(spawn(KIND_O));
    tetris.make_permanent();
    assert_eq!(tetris.score, MAX_LOCK_AWARD);
    assert_eq!(tetris.score, 10 + 160 + 1000);
    assert_eq!((tetris.num_lines, tetris.current_level), (516, 10));
}
