use vstd::prelude::*;
use crate::game_space::{GameBoard, Grid};
use crate::states::CarState;

verus! {

/// One acceleration choice, each component in `{-1, 0, 1}`.
#[derive(Clone, Copy, PartialEq, Eq, Structural, Debug)]
pub struct Action {
    pub dr: i8,
    pub dc: i8,
}

impl Action {
    pub fn new(dr: i8, dc: i8) -> (a: Action)
        ensures
            a == (Action { dr, dc }),
    {
        Action { dr, dc }
    }
}

/// The acceleration pairs as mathematical integers, in enumeration order.
pub open spec fn actions_view(s: Seq<Action>) -> Seq<(int, int)> {
    s.map_values(|a: Action| (a.dr as int, a.dc as int))
}

/// The `k`-th of the nine candidate accelerations, `dr`-major.
pub open spec fn spec_candidate(k: int) -> (int, int) {
    (k / 3 - 1, k % 3 - 1)
}

/// An acceleration is legal for a state when the new velocity stays
/// within the speed bound and the new position stays on the grid.
/// Wall cells are deliberately not filtered here. Legality reads only
/// the grid extent and the speed bound.
pub open spec fn spec_legal_g(
    grid: Grid,
    m: int,
    r: int,
    c: int,
    vr: int,
    vc: int,
    dr: int,
    dc: int,
) -> bool {
    let nvr = vr + dr;
    let nvc = vc + dc;
    &&& -m <= nvr <= m
    &&& -m <= nvc <= m
    &&& grid.in_bounds(r + nvr, c + nvc)
}

/// Legal accelerations among candidates `k..9`, in enumeration order.
pub open spec fn spec_actions_from_g(
    grid: Grid,
    m: int,
    r: int,
    c: int,
    vr: int,
    vc: int,
    k: int,
) -> Seq<(int, int)>
    decreases 9 - k,
{
    if k < 0 || k >= 9 {
        Seq::empty()
    } else {
        let a = spec_candidate(k);
        let rest = spec_actions_from_g(grid, m, r, c, vr, vc, k + 1);
        if spec_legal_g(grid, m, r, c, vr, vc, a.0, a.1) {
            seq![a] + rest
        } else {
            rest
        }
    }
}

/// All legal accelerations of a state, in the fixed enumeration order
/// used for tie-breaking downstream.
pub open spec fn spec_actions_g(grid: Grid, m: int, r: int, c: int, vr: int, vc: int) -> Seq<
    (int, int),
> {
    spec_actions_from_g(grid, m, r, c, vr, vc, 0)
}

impl GameBoard {
    pub open spec fn spec_legal(self, r: int, c: int, vr: int, vc: int, dr: int, dc: int) -> bool {
        spec_legal_g(self.grid, self.max_speed as int, r, c, vr, vc, dr, dc)
    }

    pub open spec fn spec_actions(self, r: int, c: int, vr: int, vc: int) -> Seq<(int, int)> {
        spec_actions_g(self.grid, self.max_speed as int, r, c, vr, vc)
    }
}

/// Every pair the enumeration yields is legal, and legal destinations
/// are admissible states.
pub proof fn lemma_actions_legal(board: GameBoard, r: int, c: int, vr: int, vc: int, k: int)
    requires
        board.wf(),
        board.state_in_range(r, c, vr, vc),
    ensures
        forall|j: int|
            0 <= j < spec_actions_from_g(board.grid, board.max_speed as int, r, c, vr, vc, k).len()
                ==> {
                let a = #[trigger] spec_actions_from_g(
                    board.grid,
                    board.max_speed as int,
                    r,
                    c,
                    vr,
                    vc,
                    k,
                )[j];
                &&& board.spec_legal(r, c, vr, vc, a.0, a.1)
                &&& -1 <= a.0 <= 1 && -1 <= a.1 <= 1
                &&& board.state_in_range(r + vr + a.0, c + vc + a.1, vr + a.0, vc + a.1)
            },
    decreases 9 - k,
{
    let grid = board.grid;
    let m = board.max_speed as int;
    if 0 <= k < 9 {
        lemma_actions_legal(board, r, c, vr, vc, k + 1);
        let a = spec_candidate(k);
        let rest = spec_actions_from_g(grid, m, r, c, vr, vc, k + 1);
        let cur = spec_actions_from_g(grid, m, r, c, vr, vc, k);
        assert(-1 <= a.0 <= 1 && -1 <= a.1 <= 1);
        if spec_legal_g(grid, m, r, c, vr, vc, a.0, a.1) {
            assert(cur == seq![a] + rest);
            assert forall|j: int| 0 <= j < cur.len() implies {
                let e = #[trigger] cur[j];
                &&& board.spec_legal(r, c, vr, vc, e.0, e.1)
                &&& -1 <= e.0 <= 1 && -1 <= e.1 <= 1
                &&& board.state_in_range(r + vr + e.0, c + vc + e.1, vr + e.0, vc + e.1)
            } by {
                if j == 0 {
                    assert(cur[j] == a);
                } else {
                    assert(cur[j] == rest[j - 1]);
                }
            }
        } else {
            assert(cur == rest);
        }
    }
}

/// Enumerates the legal accelerations of each state; only the grid
/// extent and the speed bound of the board take part.
pub struct ActionSpace {
    pub grid: Grid,
    pub max_speed: i32,
}

impl ActionSpace {
    pub fn from(game_board: &GameBoard) -> (s: ActionSpace)
        ensures
            s.grid == game_board.grid,
            s.max_speed == game_board.max_speed,
    {
        ActionSpace { grid: game_board.grid, max_speed: game_board.max_speed }
    }

    /// All legal accelerations of `state`, in enumeration order.
    pub fn actions(&self, state: &CarState) -> (res: Vec<Action>)
        requires
            self.grid.wf(),
            0 <= self.max_speed <= 0x2000,
            self.grid.in_bounds(state.r as int, state.c as int),
            -self.max_speed <= state.vr <= self.max_speed,
            -self.max_speed <= state.vc <= self.max_speed,
        ensures
            actions_view(res@) == spec_actions_g(
                self.grid,
                self.max_speed as int,
                state.r as int,
                state.c as int,
                state.vr as int,
                state.vc as int,
            ),
            res@.len() <= 9,
    {
        let rows = self.grid.nr;
        let cols = self.grid.nc;
        let m = self.max_speed;
        let ghost grid = self.grid;
        let ghost gm = self.max_speed as int;
        let ghost gr = state.r as int;
        let ghost gc = state.c as int;
        let ghost gvr = state.vr as int;
        let ghost gvc = state.vc as int;
        let mut res: Vec<Action> = Vec::new();
        let mut k: usize = 0;
        while k < 9
            invariant
                0 <= k <= 9,
                grid == self.grid,
                gm == self.max_speed as int,
                grid.wf(),
                0 <= m <= 0x2000,
                gr == state.r as int && gc == state.c as int,
                gvr == state.vr as int && gvc == state.vc as int,
                -m <= state.vr <= m && -m <= state.vc <= m,
                grid.in_bounds(gr, gc),
                rows == grid.nr && cols == grid.nc && m as int == gm,
                res@.len() <= k,
                actions_view(res@) + spec_actions_from_g(grid, gm, gr, gc, gvr, gvc, k as int)
                    == spec_actions_g(grid, gm, gr, gc, gvr, gvc),
            decreases 9 - k,
        {
            let dr: i32 = (k / 3) as i32 - 1;
            let dc: i32 = (k % 3) as i32 - 1;
            let nvr = dr + state.vr;
            let nvc = dc + state.vc;
            let nr = state.r + nvr;
            let nc = state.c + nvc;
            let legal = -m <= nvr && nvr <= m && -m <= nvc && nvc <= m && 0 <= nr && nr < rows && 0
                <= nc && nc < cols;
            proof {
                assert((dr as int, dc as int) == spec_candidate(k as int));
                assert(legal == spec_legal_g(grid, gm, gr, gc, gvr, gvc, dr as int, dc as int));
            }
            if legal {
                res.push(Action { dr: dr as i8, dc: dc as i8 });
                proof {
                    assert(actions_view(res@) =~= actions_view(res@.drop_last()) + seq![
                        (dr as int, dc as int),
                    ]);
                }
            }
            k = k + 1;
        }
        res
    }
}

} // verus!
