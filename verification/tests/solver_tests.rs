use racetrack::actions::Action;
use racetrack::game_space::{GameBoard, Grid};
use racetrack::opt::Optimization;
use racetrack::predicates::{CellPredicate, Mask, SingletonPredicate};
use racetrack::trajectory::raster_cells;
use racetrack::value::Val;

fn rows(tokens: &[&str]) -> Vec<Vec<String>> {
    tokens
        .iter()
        .map(|row| row.chars().map(|ch| ch.to_string()).collect())
        .collect()
}

fn board_from_source(source: &[&str], max_speed: i32) -> GameBoard {
    let mut data = rows(source);
    data.reverse();
    GameBoard::read_data(data, max_speed).unwrap()
}

/// 3x3 fully-valid board, goal at (1,1), start (0,0), max speed 1.
fn open_board() -> GameBoard {
    let grid = Grid { nr: 3, nc: 3 };
    GameBoard::new(
        grid,
        CellPredicate::Dense(Mask::from(grid, vec![true; 9])),
        CellPredicate::Singleton(SingletonPredicate::from(1, 1)),
        1,
        0,
        0,
    )
}

#[test]
fn val_arithmetic() {
    assert_eq!(Val::Fin(2).add(&Val::Fin(3)), Val::Fin(5));
    assert_eq!(Val::Fin(u64::MAX).add(&Val::Fin(1)), Val::Inf);
    assert_eq!(Val::Inf.add(&Val::Fin(1)), Val::Inf);
    assert!(Val::Fin(7).le(&Val::Inf));
    assert!(Val::Fin(7).lt(&Val::Inf));
    assert!(!Val::Inf.lt(&Val::Inf));
    assert!(Val::Inf.le(&Val::Inf));
    assert!(Val::Fin(3).lt(&Val::Fin(4)));
}

#[test]
fn raster_straight_and_diagonal() {
    // A straight move crosses each cell of the row once.
    assert_eq!(raster_cells(0, 0, 0, 2), vec![(0, 1), (0, 2)]);
    // An exact diagonal ties at the corner: both side cells are
    // emitted before the diagonal cell.
    assert_eq!(raster_cells(0, 0, 1, 1), vec![(0, 1), (1, 0), (1, 1)]);
    // A knight-like move crosses column, then row, then column.
    assert_eq!(raster_cells(0, 0, 1, 2), vec![(0, 1), (1, 1), (1, 2)]);
    // Zero displacement crosses nothing.
    assert_eq!(raster_cells(5, 5, 0, 0), Vec::<(i32, i32)>::new());
}

#[test]
fn raster_reverse_symmetry() {
    // The crossed-cell path with endpoints from (r0,c0) by (dr,dc) is
    // the reverse of the path from the destination by (-dr,-dc).
    let cases = [(0, 0, 1, 1), (0, 0, 1, 2), (3, 7, -2, 3), (5, 5, 0, 2), (2, 2, -3, -1)];
    for &(r0, c0, dr, dc) in cases.iter() {
        let mut fwd = vec![(r0, c0)];
        fwd.extend(raster_cells(r0, c0, dr, dc));
        let mut bwd = vec![(r0 + dr, c0 + dc)];
        bwd.extend(raster_cells(r0 + dr, c0 + dc, -dr, -dc));
        bwd.reverse();
        assert_eq!(fwd, bwd);
    }
}

#[test]
fn actions_enumeration_order() {
    let opt = Optimization::from(open_board());
    let s = opt.state_space.get_state(0, 0, 0, 0);
    let acts: Vec<(i8, i8)> = opt
        .action_space
        .actions(&s)
        .iter()
        .map(|a| (a.dr, a.dc))
        .collect();
    // Bound-checked only: moves that stay on the grid with speed <= 1.
    assert_eq!(acts, vec![(0, 0), (0, 1), (1, 0), (1, 1)]);
    let center = opt.state_space.get_state(1, 1, 0, 0);
    assert_eq!(opt.action_space.actions(&center).len(), 9);
}

#[test]
fn state_index_bijection() {
    let opt = Optimization::from(open_board());
    let n = opt.state_space.states.len();
    assert_eq!(n, 3 * 3 * 3 * 3);
    for i in 0..n {
        let st = &opt.state_space.states[i];
        assert_eq!(st.index, i);
        let back = opt.state_space.get_state(st.r, st.c, st.vr, st.vc);
        assert_eq!((back.r, back.c, back.vr, back.vc, back.index), (st.r, st.c, st.vr, st.vc, i));
        // The exact index formula, with n_speed = 2*max_speed + 1 = 3.
        let formula = (((st.r * 3 + st.c) * 3) + 1 + st.vr) * 3 + 1 + st.vc;
        assert_eq!(formula as usize, i);
    }
}

#[test]
fn wall_hit_is_infinite_self_loop() {
    let b = board_from_source(&["S__", "_X_", "__!"], 1);
    let opt = Optimization::from(b);
    let s = opt.state_space.get_state(2, 0, 0, 0);
    // Accelerating diagonally toward the wall at (1,1) crashes: the
    // corner tie emits (2,1), (1,0) and then the wall cell itself.
    let (cost, next) = opt.action_value(&Action::new(-1, 1), &s);
    assert_eq!(cost, Val::Inf);
    assert_eq!((next.r, next.c, next.vr, next.vc), (2, 0, 0, 0));
    assert_eq!(next.index, s.index);
}

#[test]
fn goal_state_is_absorbing() {
    let b = board_from_source(&["S__", "_X_", "__!"], 1);
    let opt = Optimization::from(b);
    let goal_state = opt.state_space.get_state(0, 2, 1, -1);
    for a in opt.action_space.actions(&goal_state) {
        let (cost, next) = opt.action_value(&a, &goal_state);
        assert_eq!(cost, Val::Fin(0));
        assert_eq!(next.index, goal_state.index);
    }
    // And after any sweep the goal cell's states hold value 0.
    let mut vals = vec![Val::Inf; opt.state_space.states.len()];
    opt.value_recursion(&mut vals);
    assert_eq!(vals[goal_state.index], Val::Fin(0));
    assert_eq!(vals[opt.state_space.get_state(0, 2, 0, 0).index], Val::Fin(0));
}

#[test]
fn open_board_start_value_exact() {
    let b = open_board();
    let opt = Optimization::from(b);
    let n = opt.state_space.states.len();
    let mut vals = vec![Val::Inf; n];
    let start = opt.state_space.get_state(0, 0, 0, 0);
    // Converge as the runner does: probe the start slot between sweeps.
    let mut start_val = vals[start.index];
    for _ in 0..50 {
        opt.value_recursion(&mut vals);
        if vals[start.index] == start_val && matches!(start_val, Val::Fin(_)) {
            break;
        }
        start_val = vals[start.index];
    }
    // One diagonal move crosses the goal cell (1,1): exactly one step.
    assert_eq!(vals[start.index], Val::Fin(1));
}

#[test]
fn sweep_values_never_increase() {
    let b = board_from_source(&["S__", "_X_", "__!"], 1);
    let opt = Optimization::from(b);
    let n = opt.state_space.states.len();
    let mut vals = vec![Val::Inf; n];
    for _ in 0..10 {
        let before = vals.clone();
        opt.value_recursion(&mut vals);
        for i in 0..n {
            assert!(vals[i].le(&before[i]));
        }
    }
}

#[test]
fn walk_breaks_ties_by_enumeration_order() {
    let opt = Optimization::from(open_board());
    let vals = vec![Val::Inf; opt.state_space.states.len()];
    let center = opt.state_space.get_state(1, 1, 0, 0);
    // The center cell is the goal: walk still returns the first of its
    // nine actions, all of which cost 0 there.
    let (a, _) = opt.walk(&vals, &center).unwrap();
    assert_eq!((a.dr, a.dc), (-1, -1));
    // A non-goal state with an all-infinite table also picks its first
    // action rather than giving up.
    let corner = opt.state_space.get_state(2, 2, 0, 0);
    let (a2, _) = opt.walk(&vals, &corner).unwrap();
    assert_eq!((a2.dr, a2.dc), (-1, -1));
}

#[test]
fn solver_finds_path_around_wall() {
    let b = board_from_source(&["S__", "_X_", "__!"], 1);
    let opt = Optimization::from(b);
    let n = opt.state_space.states.len();
    let mut vals = vec![Val::Inf; n];
    for _ in 0..20 {
        opt.value_recursion(&mut vals);
    }
    let start = opt.state_space.get_state(2, 0, 0, 0);
    assert!(matches!(vals[start.index], Val::Fin(_)));
    let path = opt.generate_path(&vals, &start);
    assert!(path.len() >= 2);
    assert_eq!((path[0].0.r, path[0].0.c), (2, 0));
    let (last, last_action) = (&path[path.len() - 1].0, &path[path.len() - 1].1);
    assert!(last_action.is_none());
    let board = &opt.state_space.game_board;
    assert!(board.is_goal(last.r, last.c));
    // No intermediate state sits on the wall and every step carries an action.
    for k in 0..path.len() - 1 {
        assert!(path[k].1.is_some());
        assert!(board.is_valid(path[k].0.r, path[k].0.c));
    }
}

#[test]
fn walled_off_start_terminates_with_partial_path() {
    let b = board_from_source(&["SX!"], 1);
    let opt = Optimization::from(b);
    let n = opt.state_space.states.len();
    let mut vals = vec![Val::Inf; n];
    for _ in 0..10 {
        opt.value_recursion(&mut vals);
    }
    let start = opt.state_space.get_state(0, 0, 0, 0);
    assert_eq!(vals[start.index], Val::Inf);
    let path = opt.generate_path(&vals, &start);
    // The walk terminates and reports a partial path: its last entry
    // has no action and does not satisfy the goal.
    let last = &path[path.len() - 1];
    assert!(last.1.is_none());
    assert!(!opt.state_space.game_board.is_goal(last.0.r, last.0.c));
}
