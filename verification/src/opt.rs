use vstd::prelude::*;
use crate::actions::{Action, ActionSpace};
use crate::game_space::GameBoard;
use crate::states::{CarState, StateSpace};
use crate::states::{lemma_raw_index_bounds, lemma_raw_index_injective};
use crate::trajectory::{cells_view, lemma_walk_in_box, raster_cells, spec_abs, spec_crossed, spec_sgn};
use crate::value::Val;

verus! {

/// A state tuple `(r, c, vr, vc)` as mathematical integers.
pub type StateTuple = (int, int, int, int);

/// Walk the crossed cells in travel order: the first invalid cell is a
/// crash (infinite cost, back to the original state); the first goal
/// cell ends the move there with velocity discarded; otherwise the move
/// completes cleanly at the intended destination. Every completed or
/// goal-crossing move costs one step.
pub open spec fn spec_classify(
    board: GameBoard,
    orig: StateTuple,
    dest: StateTuple,
    cells: Seq<(int, int)>,
) -> (Val, StateTuple)
    decreases cells.len(),
{
    if cells.len() == 0 {
        (Val::Fin(1), dest)
    } else {
        let cr = cells[0].0;
        let cc = cells[0].1;
        if !board.spec_valid(cr, cc) {
            (Val::Inf, orig)
        } else if board.spec_goal(cr, cc) {
            (Val::Fin(1), (cr, cc, 0, 0))
        } else {
            spec_classify(board, orig, dest, cells.drop_first())
        }
    }
}

/// Cost and resulting state of applying acceleration `(dr, dc)` in state
/// `(r, c, vr, vc)`. A state already on a goal cell transitions freely
/// to itself; a move with zero total displacement is a clean move.
pub open spec fn spec_transition(
    board: GameBoard,
    r: int,
    c: int,
    vr: int,
    vc: int,
    dr: int,
    dc: int,
) -> (Val, StateTuple) {
    if board.spec_goal(r, c) {
        (Val::Fin(0), (r, c, vr, vc))
    } else {
        let nvr = vr + dr;
        let nvc = vc + dc;
        if nvr == 0 && nvc == 0 {
            (Val::Fin(1), (r, c, 0, 0))
        } else {
            spec_classify(
                board,
                (r, c, vr, vc),
                (r + nvr, c + nvc, nvr, nvc),
                spec_crossed(r, c, nvr, nvc),
            )
        }
    }
}

/// Every cell crossed between two on-grid cells is itself on the grid.
pub proof fn lemma_crossed_in_bounds(board: GameBoard, r: int, c: int, dr: int, dc: int)
    requires
        board.grid.in_bounds(r, c),
        board.grid.in_bounds(r + dr, c + dc),
    ensures
        forall|j: int|
            0 <= j < spec_crossed(r, c, dr, dc).len() ==> board.grid.in_bounds(
                (#[trigger] spec_crossed(r, c, dr, dc)[j]).0,
                spec_crossed(r, c, dr, dc)[j].1,
            ),
{
    let adr = spec_abs(dr);
    let adc = spec_abs(dc);
    let sr = spec_sgn(dr);
    let sc = spec_sgn(dc);
    assert(sr * (adr - 0) == dr && sc * (adc - 0) == dc) by (nonlinear_arith)
        requires
            sr == spec_sgn(dr),
            adr == spec_abs(dr),
            sc == spec_sgn(dc),
            adc == spec_abs(dc),
    {}
    lemma_walk_in_box(adr, adc, 0, 0, r, c, sr, sc);
}

/// The state a classification resolves to is admissible.
proof fn lemma_classify_admissible(
    board: GameBoard,
    orig: StateTuple,
    dest: StateTuple,
    cells: Seq<(int, int)>,
)
    requires
        board.wf(),
        board.state_in_range(orig.0, orig.1, orig.2, orig.3),
        board.state_in_range(dest.0, dest.1, dest.2, dest.3),
        forall|j: int|
            0 <= j < cells.len() ==> board.grid.in_bounds(
                (#[trigger] cells[j]).0,
                cells[j].1,
            ),
    ensures
        ({
            let s = spec_classify(board, orig, dest, cells).1;
            board.state_in_range(s.0, s.1, s.2, s.3)
        }),
    decreases cells.len(),
{
    if cells.len() == 0 {
    } else {
        let cr = cells[0].0;
        let cc = cells[0].1;
        if !board.spec_valid(cr, cc) {
        } else if board.spec_goal(cr, cc) {
        } else {
            assert forall|j: int|
                0 <= j < cells.drop_first().len() implies board.grid.in_bounds(
                (#[trigger] cells.drop_first()[j]).0,
                cells.drop_first()[j].1,
            ) by {
                assert(cells.drop_first()[j] == cells[j + 1]);
            }
            lemma_classify_admissible(board, orig, dest, cells.drop_first());
        }
    }
}

/// The state a legal transition resolves to is admissible.
pub proof fn lemma_transition_admissible(
    board: GameBoard,
    r: int,
    c: int,
    vr: int,
    vc: int,
    dr: int,
    dc: int,
)
    requires
        board.wf(),
        board.state_in_range(r, c, vr, vc),
        board.spec_legal(r, c, vr, vc, dr, dc),
    ensures
        ({
            let s = spec_transition(board, r, c, vr, vc, dr, dc).1;
            board.state_in_range(s.0, s.1, s.2, s.3)
        }),
{
    if !board.spec_goal(r, c) {
        let nvr = vr + dr;
        let nvc = vc + dc;
        if !(nvr == 0 && nvc == 0) {
            lemma_crossed_in_bounds(board, r, c, nvr, nvc);
            lemma_classify_admissible(
                board,
                (r, c, vr, vc),
                (r + nvr, c + nvc, nvr, nvc),
                spec_crossed(r, c, nvr, nvc),
            );
        }
    }
}

/// Value of one action from a state: its step cost plus the stored
/// value of the state it leads to.
pub open spec fn spec_act_value(
    board: GameBoard,
    vals: Seq<Val>,
    r: int,
    c: int,
    vr: int,
    vc: int,
    a: (int, int),
) -> Val {
    let t = spec_transition(board, r, c, vr, vc, a.0, a.1);
    t.0.spec_add(vals[board.spec_raw_index(t.1.0, t.1.1, t.1.2, t.1.3)])
}

/// Minimum action value over the actions from position `j` on; the
/// minimum over no actions is infinite.
pub open spec fn spec_best_from(
    board: GameBoard,
    vals: Seq<Val>,
    r: int,
    c: int,
    vr: int,
    vc: int,
    acts: Seq<(int, int)>,
    j: int,
) -> Val
    decreases acts.len() - j,
{
    if j < 0 || j >= acts.len() {
        Val::Inf
    } else {
        spec_act_value(board, vals, r, c, vr, vc, acts[j]).spec_min(
            spec_best_from(board, vals, r, c, vr, vc, acts, j + 1),
        )
    }
}

/// The Bellman minimum of a state over all its legal actions.
pub open spec fn spec_state_value(
    board: GameBoard,
    vals: Seq<Val>,
    r: int,
    c: int,
    vr: int,
    vc: int,
) -> Val {
    spec_best_from(board, vals, r, c, vr, vc, board.spec_actions(r, c, vr, vc), 0)
}

/// One synchronous sweep updates each slot to this value: goal states
/// become free, other valid states take the Bellman minimum over the
/// pre-sweep table, and wall states keep their slot untouched.
pub open spec fn spec_sweep_cell(
    board: GameBoard,
    vals: Seq<Val>,
    r: int,
    c: int,
    vr: int,
    vc: int,
) -> Val {
    if !board.spec_valid(r, c) {
        vals[board.spec_raw_index(r, c, vr, vc)]
    } else if board.spec_goal(r, c) {
        Val::Fin(0)
    } else {
        spec_state_value(board, vals, r, c, vr, vc)
    }
}

/// The state tuple encoded at a dense index.
pub open spec fn spec_tuple_of_index(board: GameBoard, i: int) -> StateTuple {
    let ns = board.spec_n_speed();
    let m = board.max_speed as int;
    let b = i % ns;
    let q = i / ns;
    let a = q % ns;
    let p = q / ns;
    (p / (board.grid.nc as int), p % (board.grid.nc as int), a - m, b - m)
}

/// Decoding inverts the index formula: every dense index names exactly
/// one admissible state.
pub proof fn lemma_tuple_of_index(board: GameBoard, i: int)
    requires
        board.wf(),
        0 <= i < board.spec_total_states(),
    ensures
        ({
            let t = spec_tuple_of_index(board, i);
            &&& board.state_in_range(t.0, t.1, t.2, t.3)
            &&& board.spec_raw_index(t.0, t.1, t.2, t.3) == i
        }),
{
    let ns = board.spec_n_speed();
    let m = board.max_speed as int;
    let nr = board.grid.nr as int;
    let nc = board.grid.nc as int;
    let b = i % ns;
    let q = i / ns;
    vstd::arithmetic::div_mod::lemma_fundamental_div_mod(i, ns);
    vstd::arithmetic::div_mod::lemma_mod_division_less_than_divisor(i, ns);
    vstd::arithmetic::div_mod::lemma_div_pos_is_pos(i, ns);
    assert(q < nr * nc * ns) by (nonlinear_arith)
        requires
            ns * q + b == i,
            0 <= b,
            i < nr * nc * ns * ns,
            1 <= ns,
    {}
    let a = q % ns;
    let p = q / ns;
    vstd::arithmetic::div_mod::lemma_fundamental_div_mod(q, ns);
    vstd::arithmetic::div_mod::lemma_mod_division_less_than_divisor(q, ns);
    vstd::arithmetic::div_mod::lemma_div_pos_is_pos(q, ns);
    assert(p < nr * nc) by (nonlinear_arith)
        requires
            ns * p + a == q,
            0 <= a,
            q < nr * nc * ns,
            1 <= ns,
    {}
    let cx = p % nc;
    let rx = p / nc;
    vstd::arithmetic::div_mod::lemma_fundamental_div_mod(p, nc);
    vstd::arithmetic::div_mod::lemma_mod_division_less_than_divisor(p, nc);
    vstd::arithmetic::div_mod::lemma_div_pos_is_pos(p, nc);
    assert(rx < nr) by (nonlinear_arith)
        requires
            nc * rx + cx == p,
            0 <= cx,
            p < nr * nc,
            1 <= nc,
    {}
    assert(rx * nc + cx == p);
    assert(p * ns + a == q);
    assert(q * ns + b == i);
    assert(board.spec_raw_index(rx, cx, a - m, b - m) == ((rx * nc + cx) * ns + a) * ns + b);
    assert(board.state_in_range(rx, cx, a - m, b - m));
}

/// Pointwise table produced by one synchronous sweep.
pub open spec fn spec_sweep_table(board: GameBoard, vals: Seq<Val>) -> Seq<Val> {
    Seq::new(
        vals.len(),
        |i: int|
            {
                let t = spec_tuple_of_index(board, i);
                spec_sweep_cell(board, vals, t.0, t.1, t.2, t.3)
            },
    )
}

/// Goal absorption: any valid state on a goal cell has value exactly 0
/// after any sweep.
pub proof fn lemma_goal_absorption(
    board: GameBoard,
    vals: Seq<Val>,
    r: int,
    c: int,
    vr: int,
    vc: int,
)
    requires
        board.wf(),
        board.state_in_range(r, c, vr, vc),
        board.spec_valid(r, c),
        board.spec_goal(r, c),
    ensures
        spec_sweep_cell(board, vals, r, c, vr, vc) == Val::Fin(0),
{
}

/// A crash classified before any goal cell: if some crossed cell is
/// invalid and every cell before it is valid and not a goal, the move
/// is a crash.
proof fn lemma_classify_crash(
    board: GameBoard,
    orig: StateTuple,
    dest: StateTuple,
    cells: Seq<(int, int)>,
    j: int,
)
    requires
        0 <= j < cells.len(),
        !board.spec_valid(cells[j].0, cells[j].1),
        forall|i: int|
            0 <= i < j ==> board.spec_valid((#[trigger] cells[i]).0, cells[i].1)
                && !board.spec_goal(cells[i].0, cells[i].1),
    ensures
        spec_classify(board, orig, dest, cells) == (Val::Inf, orig),
    decreases j,
{
    if j > 0 {
        assert(board.spec_valid(cells[0].0, cells[0].1) && !board.spec_goal(
            cells[0].0,
            cells[0].1,
        ));
        let rest = cells.drop_first();
        assert forall|i: int|
            0 <= i < j - 1 implies board.spec_valid((#[trigger] rest[i]).0, rest[i].1)
            && !board.spec_goal(rest[i].0, rest[i].1) by {
            assert(rest[i] == cells[i + 1]);
        }
        assert(rest[j - 1] == cells[j]);
        lemma_classify_crash(board, orig, dest, rest, j - 1);
    }
}

/// Wall self-loop: an action whose rasterized path hits an invalid cell
/// before any goal cell costs infinity and leaves the state unchanged.
pub proof fn lemma_wall_self_loop(
    board: GameBoard,
    r: int,
    c: int,
    vr: int,
    vc: int,
    dr: int,
    dc: int,
    j: int,
)
    requires
        !board.spec_goal(r, c),
        !(vr + dr == 0 && vc + dc == 0),
        0 <= j < spec_crossed(r, c, vr + dr, vc + dc).len(),
        !board.spec_valid(
            spec_crossed(r, c, vr + dr, vc + dc)[j].0,
            spec_crossed(r, c, vr + dr, vc + dc)[j].1,
        ),
        forall|i: int|
            0 <= i < j ==> board.spec_valid(
                (#[trigger] spec_crossed(r, c, vr + dr, vc + dc)[i]).0,
                spec_crossed(r, c, vr + dr, vc + dc)[i].1,
            ) && !board.spec_goal(
                spec_crossed(r, c, vr + dr, vc + dc)[i].0,
                spec_crossed(r, c, vr + dr, vc + dc)[i].1,
            ),
    ensures
        spec_transition(board, r, c, vr, vc, dr, dc) == (Val::Inf, (r, c, vr, vc)),
{
    lemma_classify_crash(
        board,
        (r, c, vr, vc),
        (r + vr + dr, c + vc + dc, vr + dr, vc + dc),
        spec_crossed(r, c, vr + dr, vc + dc),
        j,
    );
}

/// Bellman minima only improve when the table they read improves.
proof fn lemma_best_from_monotone(
    board: GameBoard,
    v1: Seq<Val>,
    v2: Seq<Val>,
    r: int,
    c: int,
    vr: int,
    vc: int,
    acts: Seq<(int, int)>,
    j: int,
)
    requires
        board.wf(),
        board.state_in_range(r, c, vr, vc),
        v1.len() == board.spec_total_states(),
        v2.len() == board.spec_total_states(),
        forall|i: int| 0 <= i < v1.len() ==> (#[trigger] v2[i]).spec_le(v1[i]),
        forall|i: int|
            0 <= i < acts.len() ==> board.spec_legal(
                r,
                c,
                vr,
                vc,
                (#[trigger] acts[i]).0,
                acts[i].1,
            ),
    ensures
        spec_best_from(board, v2, r, c, vr, vc, acts, j).spec_le(
            spec_best_from(board, v1, r, c, vr, vc, acts, j),
        ),
    decreases acts.len() - j,
{
    if 0 <= j < acts.len() {
        lemma_best_from_monotone(board, v1, v2, r, c, vr, vc, acts, j + 1);
        let a = acts[j];
        let t = spec_transition(board, r, c, vr, vc, a.0, a.1);
        lemma_transition_admissible(board, r, c, vr, vc, a.0, a.1);
        lemma_raw_index_bounds(board, t.1.0, t.1.1, t.1.2, t.1.3);
        let idx = board.spec_raw_index(t.1.0, t.1.1, t.1.2, t.1.3);
        assert(v2[idx].spec_le(v1[idx]));
        assert(t.0.spec_add(v2[idx]).spec_le(t.0.spec_add(v1[idx])));
    }
}

/// Sweep monotonicity: updating from a pointwise smaller table yields a
/// pointwise smaller table.
pub proof fn lemma_sweep_monotone(
    board: GameBoard,
    v1: Seq<Val>,
    v2: Seq<Val>,
    r: int,
    c: int,
    vr: int,
    vc: int,
)
    requires
        board.wf(),
        board.state_in_range(r, c, vr, vc),
        v1.len() == board.spec_total_states(),
        v2.len() == board.spec_total_states(),
        forall|i: int| 0 <= i < v1.len() ==> (#[trigger] v2[i]).spec_le(v1[i]),
    ensures
        spec_sweep_cell(board, v2, r, c, vr, vc).spec_le(spec_sweep_cell(board, v1, r, c, vr, vc)),
{
    if !board.spec_valid(r, c) {
        lemma_raw_index_bounds(board, r, c, vr, vc);
    } else if board.spec_goal(r, c) {
    } else {
        crate::actions::lemma_actions_legal(board, r, c, vr, vc, 0);
        lemma_best_from_monotone(
            board,
            v1,
            v2,
            r,
            c,
            vr,
            vc,
            board.spec_actions(r, c, vr, vc),
            0,
        );
    }
}

/// The all-infinite table every run starts from.
pub open spec fn spec_initial_table(board: GameBoard) -> Seq<Val> {
    Seq::new(board.spec_total_states() as nat, |i: int| Val::Inf)
}

/// The value table after `n` synchronous sweeps from the initial table.
pub open spec fn spec_value_after(board: GameBoard, n: nat) -> Seq<Val>
    decreases n,
{
    if n == 0 {
        spec_initial_table(board)
    } else {
        spec_sweep_table(board, spec_value_after(board, (n - 1) as nat))
    }
}

/// The table keeps its length across sweeps.
pub proof fn lemma_value_after_len(board: GameBoard, n: nat)
    requires
        board.wf(),
    ensures
        spec_value_after(board, n).len() == board.spec_total_states(),
    decreases n,
{
    if n > 0 {
        lemma_value_after_len(board, (n - 1) as nat);
    }
}

/// Monotone convergence from above: starting from the all-infinite
/// table, every slot only decreases from one sweep to the next.
pub proof fn lemma_monotone_from_above(board: GameBoard, n: nat)
    requires
        board.wf(),
    ensures
        forall|i: int|
            0 <= i < board.spec_total_states() ==> (#[trigger] spec_value_after(board, n + 1)[i]).spec_le(
                spec_value_after(board, n)[i],
            ),
    decreases n,
{
    lemma_value_after_len(board, n);
    lemma_value_after_len(board, n + 1);
    if n == 0 {
        assert forall|i: int|
            0 <= i < board.spec_total_states() implies (#[trigger] spec_value_after(board, 1)[i]).spec_le(
            spec_value_after(board, 0)[i],
        ) by {
            assert(spec_value_after(board, 0)[i] == Val::Inf);
        }
    } else {
        lemma_monotone_from_above(board, (n - 1) as nat);
        lemma_value_after_len(board, (n - 1) as nat);
        let v1 = spec_value_after(board, (n - 1) as nat);
        let v2 = spec_value_after(board, n);
        assert(v2 == spec_value_after(board, (n - 1) as nat + 1));
        assert(forall|ii: int| 0 <= ii < v1.len() ==> (#[trigger] v2[ii]).spec_le(v1[ii]));
        assert forall|i: int|
            0 <= i < board.spec_total_states() implies (#[trigger] spec_value_after(board, n + 1)[i]).spec_le(
            spec_value_after(board, n)[i],
        ) by {
            lemma_tuple_of_index(board, i);
            let t = spec_tuple_of_index(board, i);
            lemma_sweep_monotone(board, v1, v2, t.0, t.1, t.2, t.3);
            assert(spec_value_after(board, n)[i] == spec_sweep_cell(board, v1, t.0, t.1, t.2, t.3));
            assert(spec_value_after(board, n + 1)[i] == spec_sweep_cell(
                board,
                v2,
                t.0,
                t.1,
                t.2,
                t.3,
            ));
        }
    }
}

/// The greedy choice of `walk`: the `j`-th action achieves the Bellman
/// minimum and every earlier action is strictly worse.
pub open spec fn spec_first_min(
    board: GameBoard,
    vals: Seq<Val>,
    r: int,
    c: int,
    vr: int,
    vc: int,
    j: int,
) -> bool {
    let acts = board.spec_actions(r, c, vr, vc);
    &&& 0 <= j < acts.len()
    &&& spec_act_value(board, vals, r, c, vr, vc, acts[j]) == spec_state_value(
        board,
        vals,
        r,
        c,
        vr,
        vc,
    )
    &&& forall|i: int|
        0 <= i < j ==> spec_act_value(board, vals, r, c, vr, vc, acts[j]).spec_lt(
            spec_act_value(board, vals, r, c, vr, vc, #[trigger] acts[i]),
        )
}

/// One greedy step: `a` is the first minimizing action of `s` and `ns`
/// the state it leads to.
pub open spec fn spec_walk_step(
    board: GameBoard,
    vals: Seq<Val>,
    s: CarState,
    a: Action,
    ns: CarState,
) -> bool {
    let acts = board.spec_actions(s.r as int, s.c as int, s.vr as int, s.vc as int);
    exists|j: int|
        {
            &&& #[trigger] spec_first_min(board, vals, s.r as int, s.c as int, s.vr as int, s.vc as int, j)
            &&& (a.dr as int, a.dc as int) == acts[j]
            &&& ({
                let t = spec_transition(
                    board,
                    s.r as int,
                    s.c as int,
                    s.vr as int,
                    s.vc as int,
                    a.dr as int,
                    a.dc as int,
                );
                &&& (ns.r as int, ns.c as int, ns.vr as int, ns.vc as int) == t.1
                &&& ns.index == board.spec_raw_index(t.1.0, t.1.1, t.1.2, t.1.3)
                &&& board.state_in_range(t.1.0, t.1.1, t.1.2, t.1.3)
            })
        }
}

/// The solver: a state space and an action space over one board.
pub struct Optimization {
    pub state_space: StateSpace,
    pub action_space: ActionSpace,
}

impl Optimization {
    pub open spec fn wf(self) -> bool {
        &&& self.state_space.wf()
        &&& self.action_space.grid == self.state_space.game_board.grid
        &&& self.action_space.max_speed == self.state_space.game_board.max_speed
    }

    pub open spec fn board(self) -> GameBoard {
        self.state_space.game_board
    }

    pub fn from(game_board: GameBoard) -> (s: Optimization)
        requires
            game_board.wf(),
        ensures
            s.wf(),
            s.board() == game_board,
    {
        let action_space = ActionSpace::from(&game_board);
        let state_space = StateSpace::from(game_board);
        Optimization { state_space, action_space }
    }

    /// Cost of one action and the state it leads to, following the
    /// trajectory model.
    pub fn action_value(&self, action: &Action, state: &CarState) -> (res: (Val, CarState))
        requires
            self.wf(),
            self.board().state_in_range(
                state.r as int,
                state.c as int,
                state.vr as int,
                state.vc as int,
            ),
            state.index == self.board().spec_raw_index(
                state.r as int,
                state.c as int,
                state.vr as int,
                state.vc as int,
            ),
            self.board().spec_legal(
                state.r as int,
                state.c as int,
                state.vr as int,
                state.vc as int,
                action.dr as int,
                action.dc as int,
            ),
        ensures
            ({
                let (cost, ns) = spec_transition(
                    self.board(),
                    state.r as int,
                    state.c as int,
                    state.vr as int,
                    state.vc as int,
                    action.dr as int,
                    action.dc as int,
                );
                &&& res.0 == cost
                &&& (res.1.r as int, res.1.c as int, res.1.vr as int, res.1.vc as int) == ns
                &&& self.board().state_in_range(ns.0, ns.1, ns.2, ns.3)
                &&& res.1.index == self.board().spec_raw_index(ns.0, ns.1, ns.2, ns.3)
            }),
    {
        let board = &self.state_space.game_board;
        let ghost gr = state.r as int;
        let ghost gc = state.c as int;
        let ghost gvr = state.vr as int;
        let ghost gvc = state.vc as int;
        let ghost gdr = action.dr as int;
        let ghost gdc = action.dc as int;
        proof {
            lemma_transition_admissible(*board, gr, gc, gvr, gvc, gdr, gdc);
        }
        if board.is_goal(state.r, state.c) {
            return (Val::Fin(0), *state);
        }
        let nvr = action.dr as i32 + state.vr;
        let nvc = action.dc as i32 + state.vc;
        let nr = state.r + nvr;
        let nc = state.c + nvc;
        if nvr == 0 && nvc == 0 {
            return (Val::Fin(1), self.state_space.get_state(state.r, state.c, 0, 0));
        }
        let cells = raster_cells(state.r, state.c, nvr, nvc);
        let ghost gcells = spec_crossed(gr, gc, gvr + gdr, gvc + gdc);
        let ghost orig: StateTuple = (gr, gc, gvr, gvc);
        let ghost dest: StateTuple = (gr + gvr + gdr, gc + gvc + gdc, gvr + gdr, gvc + gdc);
        proof {
            lemma_crossed_in_bounds(*board, gr, gc, gvr + gdr, gvc + gdc);
            assert(gcells.skip(0) =~= gcells);
        }
        let n = cells.len();
        let mut j: usize = 0;
        while j < n
            invariant
                self.wf(),
                board == self.state_space.game_board,
                0 <= j <= n,
                n == cells@.len(),
                cells_view(cells@) == gcells,
                board.state_in_range(orig.0, orig.1, orig.2, orig.3),
                board.state_in_range(dest.0, dest.1, dest.2, dest.3),
                state.r as int == orig.0 && state.c as int == orig.1,
                state.vr as int == orig.2 && state.vc as int == orig.3,
                state.index == board.spec_raw_index(orig.0, orig.1, orig.2, orig.3),
                nr as int == dest.0 && nc as int == dest.1,
                nvr as int == dest.2 && nvc as int == dest.3,
                !board.spec_goal(orig.0, orig.1),
                dest.2 == orig.2 + action.dr as int && dest.3 == orig.3 + action.dc as int,
                !(dest.2 == 0 && dest.3 == 0),
                dest.0 == orig.0 + dest.2 && dest.1 == orig.1 + dest.3,
                gcells == spec_crossed(orig.0, orig.1, dest.2, dest.3),
                forall|i: int|
                    0 <= i < gcells.len() ==> board.grid.in_bounds(
                        (#[trigger] gcells[i]).0,
                        gcells[i].1,
                    ),
                spec_classify(*board, orig, dest, gcells.skip(j as int)) == spec_classify(
                    *board,
                    orig,
                    dest,
                    gcells,
                ),
            decreases n - j,
        {
            let (cr, cc) = cells[j];
            assert((cr as int, cc as int) == gcells[j as int]);
            if !board.is_valid(cr, cc) {
                assert(spec_classify(*board, orig, dest, gcells.skip(j as int)) == (
                    Val::Inf,
                    orig,
                ));
                return (Val::Inf, *state);
            }
            if board.is_goal(cr, cc) {
                assert(spec_classify(*board, orig, dest, gcells.skip(j as int)) == (
                    Val::Fin(1),
                    (cr as int, cc as int, 0int, 0int),
                ));
                return (Val::Fin(1), self.state_space.get_state(cr, cc, 0, 0));
            }
            proof {
                assert(gcells.skip(j as int).drop_first() =~= gcells.skip(j as int + 1));
            }
            j = j + 1;
        }
        assert(gcells.skip(n as int) =~= Seq::<(int, int)>::empty());
        (Val::Fin(1), self.state_space.get_state(nr, nc, nvr, nvc))
    }

    /// One synchronous (Jacobi) Bellman sweep: every slot is recomputed
    /// from the pre-sweep table alone, then the table is replaced as a
    /// whole, so updates never observe values written in the same sweep.
    pub fn value_recursion(&self, values: &mut Vec<Val>)
        requires
            self.wf(),
            old(values)@.len() == self.board().spec_total_states(),
        ensures
            final(values)@.len() == old(values)@.len(),
            final(values)@ == spec_sweep_table(self.board(), old(values)@),
            forall|r: int, c: int, vr: int, vc: int|
                self.board().state_in_range(r, c, vr, vc) ==> final(values)@[#[trigger] self.board().spec_raw_index(r, c, vr, vc)]
                    == spec_sweep_cell(self.board(), old(values)@, r, c, vr, vc),
    {
        let ghost board = self.board();
        let ghost vals0 = values@;
        let n = self.state_space.states.len();
        let mut new_vals: Vec<Val> = Vec::new();
        let mut i: usize = 0;
        while i < n
            invariant
                self.wf(),
                board == self.board(),
                values@ == vals0,
                vals0.len() == board.spec_total_states(),
                n == board.spec_total_states(),
                0 <= i <= n,
                new_vals@.len() == i,
                forall|idx: int|
                    0 <= idx < i ==> #[trigger] new_vals@[idx] == {
                        let t = spec_tuple_of_index(board, idx);
                        spec_sweep_cell(board, vals0, t.0, t.1, t.2, t.3)
                    },
            decreases n - i,
        {
            proof {
                lemma_tuple_of_index(board, i as int);
            }
            let ghost t = spec_tuple_of_index(board, i as int);
            let st = self.state_space.states[i];
            assert(st == (CarState {
                r: t.0 as i32,
                c: t.1 as i32,
                vr: t.2 as i32,
                vc: t.3 as i32,
                index: i,
            }));
            let nv = self.state_value(values, &st);
            new_vals.push(nv);
            i = i + 1;
        }
        *values = new_vals;
        proof {
            assert(values@ =~= spec_sweep_table(board, vals0));
            assert forall|r: int, c: int, vr: int, vc: int|
                board.state_in_range(r, c, vr, vc) implies values@[#[trigger] board.spec_raw_index(
                r,
                c,
                vr,
                vc,
            )] == spec_sweep_cell(board, vals0, r, c, vr, vc) by {
                lemma_raw_index_bounds(board, r, c, vr, vc);
                let idx = board.spec_raw_index(r, c, vr, vc);
                lemma_tuple_of_index(board, idx);
                let t = spec_tuple_of_index(board, idx);
                lemma_raw_index_injective(board, t.0, t.1, t.2, t.3, r, c, vr, vc);
            }
        }
    }

    /// The post-sweep value of one state, read from the pre-sweep table.
    /// Public so that a runner may fan the per-state updates of one
    /// sweep out to threads; each update reads only the frozen table.
    pub fn state_value(&self, values: &Vec<Val>, st: &CarState) -> (nv: Val)
        requires
            self.wf(),
            values@.len() == self.board().spec_total_states(),
            self.board().state_in_range(
                st.r as int,
                st.c as int,
                st.vr as int,
                st.vc as int,
            ),
            st.index == self.board().spec_raw_index(
                st.r as int,
                st.c as int,
                st.vr as int,
                st.vc as int,
            ),
        ensures
            nv == spec_sweep_cell(
                self.board(),
                values@,
                st.r as int,
                st.c as int,
                st.vr as int,
                st.vc as int,
            ),
    {
        let board = &self.state_space.game_board;
        let ghost gb = self.board();
        let ghost vals = values@;
        let ghost gr = st.r as int;
        let ghost gc = st.c as int;
        let ghost gvr = st.vr as int;
        let ghost gvc = st.vc as int;
        if !board.is_valid(st.r, st.c) {
            proof {
                lemma_raw_index_bounds(gb, gr, gc, gvr, gvc);
            }
            return values[st.index];
        }
        if board.is_goal(st.r, st.c) {
            return Val::Fin(0);
        }
        let acts = self.action_space.actions(st);
        let ghost gacts = gb.spec_actions(gr, gc, gvr, gvc);
        proof {
            crate::actions::lemma_actions_legal(gb, gr, gc, gvr, gvc, 0);
        }
        let mut best = Val::Inf;
        let na = acts.len();
        let mut j: usize = 0;
        while j < na
            invariant
                self.wf(),
                gb == self.board(),
                vals == values@,
                vals.len() == gb.spec_total_states(),
                gr == st.r as int && gc == st.c as int,
                gvr == st.vr as int && gvc == st.vc as int,
                gb.state_in_range(gr, gc, gvr, gvc),
                st.index == gb.spec_raw_index(gr, gc, gvr, gvc),
                gacts == gb.spec_actions(gr, gc, gvr, gvc),
                crate::actions::actions_view(acts@) == gacts,
                na == acts@.len(),
                0 <= j <= na,
                forall|jj: int|
                    0 <= jj < gacts.len() ==> gb.spec_legal(
                        gr,
                        gc,
                        gvr,
                        gvc,
                        (#[trigger] gacts[jj]).0,
                        gacts[jj].1,
                    ),
                spec_best_from(gb, vals, gr, gc, gvr, gvc, gacts, 0) == best.spec_min(
                    spec_best_from(gb, vals, gr, gc, gvr, gvc, gacts, j as int),
                ),
            decreases na - j,
        {
            let a = acts[j];
            assert((a.dr as int, a.dc as int) == gacts[j as int]);
            let (cost, nst) = self.action_value(&a, st);
            proof {
                lemma_raw_index_bounds(
                    gb,
                    nst.r as int,
                    nst.c as int,
                    nst.vr as int,
                    nst.vc as int,
                );
            }
            let fut = values[nst.index];
            let v = cost.add(&fut);
            assert(v == spec_act_value(gb, vals, gr, gc, gvr, gvc, gacts[j as int]));
            let ghost old_best = best;
            if v.lt(&best) {
                best = v;
            }
            proof {
                let rest = spec_best_from(gb, vals, gr, gc, gvr, gvc, gacts, j as int + 1);
                assert(spec_best_from(gb, vals, gr, gc, gvr, gvc, gacts, j as int) == v.spec_min(
                    rest,
                ));
                assert(best == old_best.spec_min(v));
                assert(old_best.spec_min(v.spec_min(rest)) == (old_best.spec_min(v)).spec_min(
                    rest,
                ));
            }
            j = j + 1;
        }
        proof {
            assert(spec_best_from(gb, vals, gr, gc, gvr, gvc, gacts, na as int) == Val::Inf);
            assert(best.spec_min(Val::Inf) == best);
        }
        best
    }

    /// The greedy one-step choice: the first action (in enumeration
    /// order) whose value achieves the Bellman minimum, with the state
    /// it leads to. Returns nothing only when the state has no legal
    /// action at all.
    pub fn walk(&self, values: &Vec<Val>, state: &CarState) -> (res: Option<(Action, CarState)>)
        requires
            self.wf(),
            values@.len() == self.board().spec_total_states(),
            self.board().state_in_range(
                state.r as int,
                state.c as int,
                state.vr as int,
                state.vc as int,
            ),
            state.index == self.board().spec_raw_index(
                state.r as int,
                state.c as int,
                state.vr as int,
                state.vc as int,
            ),
        ensures
            res is None <==> self.board().spec_actions(
                state.r as int,
                state.c as int,
                state.vr as int,
                state.vc as int,
            ).len() == 0,
            res matches Some(p) ==> spec_walk_step(self.board(), values@, *state, p.0, p.1),
    {
        let ghost gb = self.board();
        let ghost vals = values@;
        let ghost gr = state.r as int;
        let ghost gc = state.c as int;
        let ghost gvr = state.vr as int;
        let ghost gvc = state.vc as int;
        let acts = self.action_space.actions(state);
        let ghost gacts = gb.spec_actions(gr, gc, gvr, gvc);
        proof {
            crate::actions::lemma_actions_legal(gb, gr, gc, gvr, gvc, 0);
        }
        if acts.len() == 0 {
            return None;
        }
        let a0 = acts[0];
        assert((a0.dr as int, a0.dc as int) == gacts[0]);
        let (cost0, nst0) = self.action_value(&a0, state);
        proof {
            lemma_raw_index_bounds(gb, nst0.r as int, nst0.c as int, nst0.vr as int, nst0.vc as int);
        }
        let fut0 = values[nst0.index];
        let mut best = cost0.add(&fut0);
        let mut best_a = a0;
        let mut best_s = nst0;
        let ghost mut best_j: int = 0;
        assert(best == spec_act_value(gb, vals, gr, gc, gvr, gvc, gacts[0]));
        let na = acts.len();
        let mut j: usize = 1;
        while j < na
            invariant
                self.wf(),
                gb == self.board(),
                vals == values@,
                vals.len() == gb.spec_total_states(),
                gr == state.r as int && gc == state.c as int,
                gvr == state.vr as int && gvc == state.vc as int,
                gb.state_in_range(gr, gc, gvr, gvc),
                state.index == gb.spec_raw_index(gr, gc, gvr, gvc),
                gacts == gb.spec_actions(gr, gc, gvr, gvc),
                crate::actions::actions_view(acts@) == gacts,
                na == acts@.len(),
                1 <= j <= na,
                0 <= best_j < j,
                forall|jj: int|
                    0 <= jj < gacts.len() ==> gb.spec_legal(
                        gr,
                        gc,
                        gvr,
                        gvc,
                        (#[trigger] gacts[jj]).0,
                        gacts[jj].1,
                    ),
                best == spec_act_value(gb, vals, gr, gc, gvr, gvc, gacts[best_j]),
                (best_a.dr as int, best_a.dc as int) == gacts[best_j],
                ({
                    let t = spec_transition(
                        gb,
                        gr,
                        gc,
                        gvr,
                        gvc,
                        best_a.dr as int,
                        best_a.dc as int,
                    );
                    &&& (best_s.r as int, best_s.c as int, best_s.vr as int, best_s.vc as int)
                        == t.1
                    &&& best_s.index == gb.spec_raw_index(t.1.0, t.1.1, t.1.2, t.1.3)
                    &&& gb.state_in_range(t.1.0, t.1.1, t.1.2, t.1.3)
                }),
                forall|i: int|
                    0 <= i < j ==> best.spec_le(
                        spec_act_value(gb, vals, gr, gc, gvr, gvc, #[trigger] gacts[i]),
                    ),
                forall|i: int|
                    0 <= i < best_j ==> best.spec_lt(
                        spec_act_value(gb, vals, gr, gc, gvr, gvc, #[trigger] gacts[i]),
                    ),
                spec_best_from(gb, vals, gr, gc, gvr, gvc, gacts, 0) == best.spec_min(
                    spec_best_from(gb, vals, gr, gc, gvr, gvc, gacts, j as int),
                ),
            decreases na - j,
        {
            let a = acts[j];
            assert((a.dr as int, a.dc as int) == gacts[j as int]);
            let (cost, nst) = self.action_value(&a, state);
            proof {
                lemma_raw_index_bounds(gb, nst.r as int, nst.c as int, nst.vr as int, nst.vc as int);
            }
            let fut = values[nst.index];
            let v = cost.add(&fut);
            assert(v == spec_act_value(gb, vals, gr, gc, gvr, gvc, gacts[j as int]));
            let ghost old_best = best;
            if v.lt(&best) {
                best = v;
                best_a = a;
                best_s = nst;
                proof {
                    best_j = j as int;
                }
            }
            proof {
                let rest = spec_best_from(gb, vals, gr, gc, gvr, gvc, gacts, j as int + 1);
                assert(spec_best_from(gb, vals, gr, gc, gvr, gvc, gacts, j as int) == v.spec_min(
                    rest,
                ));
                assert(best == old_best.spec_min(v));
                assert(old_best.spec_min(v.spec_min(rest)) == (old_best.spec_min(v)).spec_min(
                    rest,
                ));
            }
            j = j + 1;
        }
        proof {
            assert(spec_best_from(gb, vals, gr, gc, gvr, gvc, gacts, na as int) == Val::Inf);
            assert(best.spec_min(Val::Inf) == best);
            assert(spec_first_min(gb, vals, gr, gc, gvr, gvc, best_j));
        }
        Some((best_a, best_s))
    }

    /// Greedy path extraction: repeat `walk` from the start, appending
    /// `(state, action)` pairs, until the goal is reached, no action is
    /// legal, or the walk has taken as many steps as there are states
    /// (a longer greedy walk on a fixed table must revisit a state and
    /// would repeat forever). The terminal entry carries no action.
    pub fn generate_path(&self, vals: &Vec<Val>, start: &CarState) -> (res: Vec<
        (CarState, Option<Action>),
    >)
        requires
            self.wf(),
            vals@.len() == self.board().spec_total_states(),
            self.board().state_in_range(
                start.r as int,
                start.c as int,
                start.vr as int,
                start.vc as int,
            ),
            start.index == self.board().spec_raw_index(
                start.r as int,
                start.c as int,
                start.vr as int,
                start.vc as int,
            ),
        ensures
            res@.len() >= 1,
            res@[0].0 == *start,
            res@.last().1 is None,
            forall|k: int|
                0 <= k < res@.len() - 1 ==> {
                    let e = #[trigger] res@[k];
                    &&& !self.board().spec_goal(e.0.r as int, e.0.c as int)
                    &&& e.1 matches Some(a) && spec_walk_step(
                        self.board(),
                        vals@,
                        e.0,
                        a,
                        res@[k + 1].0,
                    )
                },
            ({
                let last = res@.last().0;
                ||| self.board().spec_goal(last.r as int, last.c as int)
                ||| self.board().spec_actions(
                    last.r as int,
                    last.c as int,
                    last.vr as int,
                    last.vc as int,
                ).len() == 0
                ||| res@.len() == self.board().spec_total_states() + 1
            }),
    {
        let ghost gb = self.board();
        let board = &self.state_space.game_board;
        let mut solution: Vec<(CarState, Option<Action>)> = Vec::new();
        let mut state = *start;
        let budget = self.state_space.states.len();
        let mut steps: usize = 0;
        loop
            invariant
                self.wf(),
                gb == self.board(),
                board == self.state_space.game_board,
                vals@.len() == gb.spec_total_states(),
                budget == gb.spec_total_states(),
                0 <= steps <= budget,
                solution@.len() == steps,
                gb.state_in_range(state.r as int, state.c as int, state.vr as int, state.vc as int),
                state.index == gb.spec_raw_index(
                    state.r as int,
                    state.c as int,
                    state.vr as int,
                    state.vc as int,
                ),
                steps == 0 ==> state == *start,
                steps >= 1 ==> solution@[0].0 == *start,
                forall|k: int|
                    0 <= k < steps ==> {
                        let e = #[trigger] solution@[k];
                        &&& !gb.spec_goal(e.0.r as int, e.0.c as int)
                        &&& e.1 matches Some(a) && spec_walk_step(
                            gb,
                            vals@,
                            e.0,
                            a,
                            if k + 1 < steps {
                                solution@[k + 1].0
                            } else {
                                state
                            },
                        )
                    },
            decreases budget - steps,
        {
            if board.is_goal(state.r, state.c) {
                solution.push((state, None));
                return solution;
            }
            if steps >= budget {
                solution.push((state, None));
                return solution;
            }
            let out = self.walk(vals, &state);
            match out {
                Some((action, next)) => {
                    solution.push((state, Some(action)));
                    state = next;
                    steps = steps + 1;
                },
                None => {
                    solution.push((state, None));
                    return solution;
                },
            }
        }
    }
}

} // verus!
