use racetrack::game_space::{ConfigError, GameBoard, Grid};
use racetrack::predicates::{CellPredicate, Mask, SingletonPredicate};

fn rows(tokens: &[&str]) -> Vec<Vec<String>> {
    tokens
        .iter()
        .map(|row| row.chars().map(|ch| ch.to_string()).collect())
        .collect()
}

/// The source rows of a tabular board, reversed on ingestion as the
/// reader does: row 0 of the board is the last source row.
fn board_from_source(source: &[&str], max_speed: i32) -> Result<GameBoard, ConfigError> {
    let mut data = rows(source);
    data.reverse();
    GameBoard::read_data(data, max_speed)
}

#[test]
fn grid_round_trip() {
    let g = Grid { nr: 4, nc: 7 };
    for r in 0..4 {
        for c in 0..7 {
            let i = g.to_index(r, c);
            let (r2, c2) = g.to_row_col(i as i32);
            assert_eq!((r, c), (r2, c2));
        }
    }
    assert_eq!(g.to_index(2, 3), 2 * 7 + 3);
}

#[test]
fn read_data_simple_board() {
    let b = board_from_source(&["S__", "_X_", "__!"], 1).unwrap();
    assert_eq!(b.grid.nr, 3);
    assert_eq!(b.grid.nc, 3);
    // After reversal the start sits on the top source row, board row 2.
    assert_eq!((b.start_r, b.start_c), (2, 0));
    assert!(!b.is_valid(1, 1));
    assert!(b.is_valid(0, 0));
    assert!(b.is_valid(2, 2));
    assert!(b.is_goal(0, 2));
    assert!(!b.is_goal(1, 1));
}

#[test]
fn read_data_tokens_case_insensitive_and_trimmed() {
    let data = vec![
        vec![" s ".to_string(), "X".to_string()],
        vec!["_".to_string(), " ! ".to_string()],
    ];
    let b = GameBoard::read_data(data, 1).unwrap();
    assert_eq!((b.start_r, b.start_c), (0, 0));
    assert!(!b.is_valid(0, 1));
    assert!(b.is_goal(1, 1));
}

#[test]
fn read_data_empty_grid() {
    assert_eq!(
        GameBoard::read_data(Vec::new(), 1).unwrap_err(),
        ConfigError::EmptyGrid
    );
    assert_eq!(
        GameBoard::read_data(vec![Vec::new()], 1).unwrap_err(),
        ConfigError::EmptyGrid
    );
}

#[test]
fn read_data_ragged_rows() {
    let data = vec![
        vec!["s".to_string(), "_".to_string()],
        vec!["_".to_string()],
    ];
    assert_eq!(
        GameBoard::read_data(data, 1).unwrap_err(),
        ConfigError::RaggedRows
    );
}

#[test]
fn read_data_unrecognized_token() {
    assert_eq!(
        board_from_source(&["s?"], 1).unwrap_err(),
        ConfigError::UnrecognizedToken
    );
}

#[test]
fn read_data_missing_start() {
    assert_eq!(
        board_from_source(&["__!"], 1).unwrap_err(),
        ConfigError::MissingStart
    );
}

#[test]
fn read_data_multiple_starts() {
    assert_eq!(
        board_from_source(&["s_s"], 1).unwrap_err(),
        ConfigError::MultipleStart
    );
}

#[test]
fn circ_track_shape() {
    let b = GameBoard::generate_circ_track(8, 8, 2);
    assert_eq!((b.start_r, b.start_c), (1, 5));
    assert!(b.is_goal(1, 3));
    assert!(!b.is_goal(1, 4));
    assert!(b.is_valid(1, 5));
    // The grid center is inside the inner radius, so invalid.
    assert!(!b.is_valid(4, 4));
    // The slit on the center column below the center is forced invalid.
    assert!(!b.is_valid(1, 4));
    // A cell on the ring: distance from (4,4) to (1,4) is 3, and
    // 8/4 = 2 <= 3 <= 4 = 8/2, but it sits on the slit; (6,6) has
    // distance sqrt(8) which is inside the ring and off the slit.
    assert!(b.is_valid(6, 6));
    // Far corner (0,0) has distance sqrt(32) > 4, outside the ring.
    assert!(!b.is_valid(0, 0));
}

#[test]
fn board_from_predicates() {
    let grid = Grid { nr: 3, nc: 3 };
    let mask = Mask::from(grid, vec![true; 9]);
    let goal = SingletonPredicate::from(1, 1);
    let b = GameBoard::new(
        grid,
        CellPredicate::Dense(mask),
        CellPredicate::Singleton(goal),
        1,
        0,
        0,
    );
    assert!(b.is_valid(2, 2));
    assert!(b.is_goal(1, 1));
    assert!(!b.is_goal(1, 2));
}

#[test]
fn display_board_lines() {
    let b = board_from_source(&["S__", "_X_", "__!"], 1).unwrap();
    let lines = racetrack::display::display_board(&b);
    assert_eq!(lines, vec!["[S][ ][ ]", "[ ][X][ ]", "[ ][ ][!]"]);
}

#[test]
fn create_board_marks() {
    let b = board_from_source(&["S__", "_X_", "__!"], 1).unwrap();
    let cells = racetrack::display::create_board(&b);
    assert_eq!(cells[2][0], "[S]");
    assert_eq!(cells[1][1], "[X]");
    assert_eq!(cells[0][2], "[!]");
    assert_eq!(cells[0][0], "[ ]");
}
