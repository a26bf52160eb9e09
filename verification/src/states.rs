use vstd::prelude::*;
use crate::game_space::GameBoard;

verus! {

/// One state of the car: position, velocity, and its dense index.
#[derive(Clone, Copy, PartialEq, Eq, Structural, Debug)]
pub struct CarState {
    pub r: i32,
    pub c: i32,
    pub vr: i32,
    pub vc: i32,
    pub index: usize,
}

impl GameBoard {
    /// A position/velocity tuple the board admits: the cell is on the
    /// grid and both velocity components are bounded by the max speed.
    pub open spec fn state_in_range(self, r: int, c: int, vr: int, vc: int) -> bool {
        &&& self.grid.in_bounds(r, c)
        &&& -self.max_speed <= vr <= self.max_speed
        &&& -self.max_speed <= vc <= self.max_speed
    }

    /// Dense mixed-radix state index: row-major over cells, then
    /// row-major over shifted velocity components.
    pub open spec fn spec_raw_index(self, r: int, c: int, vr: int, vc: int) -> int {
        let ns = self.spec_n_speed();
        let m = self.max_speed as int;
        ((r * self.grid.nc + c) * ns + m + vr) * ns + m + vc
    }

    /// Number of states: one per cell and velocity pair.
    pub open spec fn spec_total_states(self) -> int {
        self.grid.nr * self.grid.nc * self.spec_n_speed() * self.spec_n_speed()
    }
}

/// The index of an admissible state lies in `[0, total)`, and so do its
/// partial mixed-radix prefixes.
pub proof fn lemma_raw_index_bounds(board: GameBoard, r: int, c: int, vr: int, vc: int)
    requires
        board.wf(),
        board.state_in_range(r, c, vr, vc),
    ensures
        0 <= r * board.grid.nc + c < board.grid.nr * board.grid.nc,
        0 <= (r * board.grid.nc + c) * board.spec_n_speed() + board.max_speed + vr < board.grid.nr
            * board.grid.nc * board.spec_n_speed(),
        0 <= board.spec_raw_index(r, c, vr, vc) < board.spec_total_states(),
        board.spec_total_states() <= 0x40000000,
        0 <= r * board.grid.nc,
        0 <= (r * board.grid.nc + c) * board.spec_n_speed(),
        0 <= ((r * board.grid.nc + c) * board.spec_n_speed() + board.max_speed + vr)
            * board.spec_n_speed(),
        board.grid.nr * board.grid.nc <= board.spec_total_states(),
        board.grid.nr * board.grid.nc * board.spec_n_speed() <= board.spec_total_states(),
{
    let nr = board.grid.nr as int;
    let nc = board.grid.nc as int;
    let ns = board.spec_n_speed();
    let m = board.max_speed as int;
    let p = r * nc + c;
    let q = p * ns + m + vr;
    assert(0 <= p - c && 0 <= p < nr * nc) by (nonlinear_arith)
        requires
            p == r * nc + c,
            0 <= r < nr,
            0 <= c < nc,
            1 <= nc,
    {}
    assert(0 <= q - (m + vr) && 0 <= q < nr * nc * ns) by (nonlinear_arith)
        requires
            0 <= p < nr * nc,
            0 <= m + vr < ns,
            q == p * ns + m + vr,
            1 <= ns,
    {}
    assert(0 <= q * ns && 0 <= q * ns + m + vc < nr * nc * ns * ns) by (nonlinear_arith)
        requires
            0 <= q < nr * nc * ns,
            0 <= m + vc < ns,
            1 <= ns,
    {}
    assert(nr * nc <= nr * nc * ns * ns && nr * nc * ns <= nr * nc * ns * ns)
        by (nonlinear_arith)
        requires
            1 <= nr * nc,
            1 <= ns,
    {}
}

/// The dense index determines the state: two admissible tuples with the
/// same index are the same tuple. Together with the bounds above and the
/// lookup contract of `StateSpace::get_state`, indexing is a bijection.
pub proof fn lemma_raw_index_injective(
    board: GameBoard,
    r1: int,
    c1: int,
    vr1: int,
    vc1: int,
    r2: int,
    c2: int,
    vr2: int,
    vc2: int,
)
    requires
        board.wf(),
        board.state_in_range(r1, c1, vr1, vc1),
        board.state_in_range(r2, c2, vr2, vc2),
        board.spec_raw_index(r1, c1, vr1, vc1) == board.spec_raw_index(r2, c2, vr2, vc2),
    ensures
        r1 == r2 && c1 == c2 && vr1 == vr2 && vc1 == vc2,
{
    let nc = board.grid.nc as int;
    let ns = board.spec_n_speed();
    let m = board.max_speed as int;
    let idx = board.spec_raw_index(r1, c1, vr1, vc1);
    let q1 = (r1 * nc + c1) * ns + m + vr1;
    let q2 = (r2 * nc + c2) * ns + m + vr2;
    vstd::arithmetic::div_mod::lemma_fundamental_div_mod_converse(idx, ns, q1, m + vc1);
    vstd::arithmetic::div_mod::lemma_fundamental_div_mod_converse(idx, ns, q2, m + vc2);
    vstd::arithmetic::div_mod::lemma_fundamental_div_mod_converse(q1, ns, r1 * nc + c1, m + vr1);
    vstd::arithmetic::div_mod::lemma_fundamental_div_mod_converse(q1, ns, r2 * nc + c2, m + vr2);
    vstd::arithmetic::div_mod::lemma_fundamental_div_mod_converse(r1 * nc + c1, nc, r1, c1);
    vstd::arithmetic::div_mod::lemma_fundamental_div_mod_converse(r1 * nc + c1, nc, r2, c2);
}

/// Dense enumeration of every admissible state, ordered by index.
pub struct StateSpace {
    pub game_board: GameBoard,
    pub states: Vec<CarState>,
}

impl StateSpace {
    /// Every admissible tuple sits in `states` at its own index, with
    /// that index stored in the record.
    pub open spec fn wf(self) -> bool {
        &&& self.game_board.wf()
        &&& self.states@.len() == self.game_board.spec_total_states()
        &&& forall|r: int, c: int, vr: int, vc: int|
            self.game_board.state_in_range(r, c, vr, vc) ==> self.states@[#[trigger] self.game_board.spec_raw_index(r, c, vr, vc)]
                == (CarState {
                r: r as i32,
                c: c as i32,
                vr: vr as i32,
                vc: vc as i32,
                index: self.game_board.spec_raw_index(r, c, vr, vc) as usize,
            })
    }

    pub fn raw_index(game_board: &GameBoard, r: i32, c: i32, vr: i32, vc: i32) -> (i: usize)
        requires
            game_board.wf(),
            game_board.state_in_range(r as int, c as int, vr as int, vc as int),
        ensures
            i == game_board.spec_raw_index(r as int, c as int, vr as int, vc as int),
            i < game_board.spec_total_states(),
    {
        proof {
            lemma_raw_index_bounds(*game_board, r as int, c as int, vr as int, vc as int);
        }
        let ns = (2 * game_board.max_speed + 1) as i64;
        let m = game_board.max_speed as i64;
        let p: i64 = (r as i64) * (game_board.grid.nc as i64) + (c as i64);
        let q: i64 = p * ns + m + (vr as i64);
        let i: i64 = q * ns + m + (vc as i64);
        i as usize
    }

    pub fn index(&self, car_state: CarState) -> (i: usize)
        requires
            self.game_board.wf(),
            self.game_board.state_in_range(
                car_state.r as int,
                car_state.c as int,
                car_state.vr as int,
                car_state.vc as int,
            ),
        ensures
            i == self.game_board.spec_raw_index(
                car_state.r as int,
                car_state.c as int,
                car_state.vr as int,
                car_state.vc as int,
            ),
    {
        Self::raw_index(&self.game_board, car_state.r, car_state.c, car_state.vr, car_state.vc)
    }

    /// O(1) lookup: the computed index recovers exactly the asked tuple.
    pub fn get_state(&self, r: i32, c: i32, vr: i32, vc: i32) -> (s: CarState)
        requires
            self.wf(),
            self.game_board.state_in_range(r as int, c as int, vr as int, vc as int),
        ensures
            s.r == r && s.c == c && s.vr == vr && s.vc == vc,
            s.index == self.game_board.spec_raw_index(r as int, c as int, vr as int, vc as int),
    {
        let i = Self::raw_index(&self.game_board, r, c, vr, vc);
        self.states[i]
    }

    /// Enumerate every state in nested order `r -> c -> vr -> vc`; the
    /// position of each record equals its own index formula value.
    pub fn from(game_board: GameBoard) -> (s: StateSpace)
        requires
            game_board.wf(),
        ensures
            s.wf(),
            s.game_board == game_board,
    {
        let nr = game_board.grid.nr;
        let nc = game_board.grid.nc;
        let m = game_board.max_speed;
        let ns: i64 = (2 * m + 1) as i64;
        let mut states: Vec<CarState> = Vec::new();
        let ghost ins = game_board.spec_n_speed();
        let mut r: i32 = 0;
        while r < nr
            invariant
                game_board.wf(),
                nr == game_board.grid.nr,
                nc == game_board.grid.nc,
                m == game_board.max_speed,
                ins == game_board.spec_n_speed(),
                0 <= r <= nr,
                states@.len() == r * nc * ins * ins,
                inv_states_prefix(game_board, states@),
            decreases nr - r,
        {
            let mut c: i32 = 0;
            while c < nc
                invariant
                    game_board.wf(),
                    nr == game_board.grid.nr,
                    nc == game_board.grid.nc,
                    m == game_board.max_speed,
                    ins == game_board.spec_n_speed(),
                    0 <= r < nr,
                    0 <= c <= nc,
                    states@.len() == (r * nc + c) * ins * ins,
                    inv_states_prefix(game_board, states@),
                decreases nc - c,
            {
                let mut vr: i32 = -m;
                while vr <= m
                    invariant
                        game_board.wf(),
                        nr == game_board.grid.nr,
                        nc == game_board.grid.nc,
                        m == game_board.max_speed,
                        ins == game_board.spec_n_speed(),
                        0 <= r < nr,
                        0 <= c < nc,
                        -m <= vr <= m + 1,
                        states@.len() == ((r * nc + c) * ins + (m + vr)) * ins,
                        inv_states_prefix(game_board, states@),
                    decreases m + 1 - vr,
                {
                    let mut vc: i32 = -m;
                    while vc <= m
                        invariant
                            game_board.wf(),
                            nr == game_board.grid.nr,
                            nc == game_board.grid.nc,
                            m == game_board.max_speed,
                            ins == game_board.spec_n_speed(),
                            0 <= r < nr,
                            0 <= c < nc,
                            -m <= vr <= m,
                            -m <= vc <= m + 1,
                            states@.len() == ((r * nc + c) * ins + (m + vr)) * ins + (m + vc),
                            inv_states_prefix(game_board, states@),
                        decreases m + 1 - vc,
                    {
                        let index = Self::raw_index(&game_board, r, c, vr, vc);
                        proof {
                            lemma_raw_index_bounds(
                                game_board,
                                r as int,
                                c as int,
                                vr as int,
                                vc as int,
                            );
                        }
                        assert(index == states@.len());
                        states.push(CarState { r, c, vr, vc, index });
                        vc = vc + 1;
                    }
                    proof {
                        let p = (r * nc + c) as int;
                        assert((p * ins + (m + vr) + 1) * ins == (p * ins + (m + vr)) * ins + ins)
                            by (nonlinear_arith)
                        {}
                    }
                    vr = vr + 1;
                }
                proof {
                    let p = (r * nc + c) as int;
                    assert((p + 1) * ins * ins == (p * ins + ins) * ins) by (nonlinear_arith) {}
                }
                c = c + 1;
            }
            proof {
                assert(((r + 1) * nc) * ins * ins == (r * nc + nc) * ins * ins)
                    by (nonlinear_arith)
                {}
            }
            r = r + 1;
        }
        let s = StateSpace { game_board, states };
        proof {
            assert forall|r2: int, c2: int, vr2: int, vc2: int|
                game_board.state_in_range(r2, c2, vr2, vc2) implies s.states@[#[trigger] game_board.spec_raw_index(r2, c2, vr2, vc2)] == (CarState {
                r: r2 as i32,
                c: c2 as i32,
                vr: vr2 as i32,
                vc: vc2 as i32,
                index: game_board.spec_raw_index(r2, c2, vr2, vc2) as usize,
            }) by {
                lemma_raw_index_bounds(game_board, r2, c2, vr2, vc2);
                let i = game_board.spec_raw_index(r2, c2, vr2, vc2);
                let st = s.states@[i];
                lemma_raw_index_injective(
                    game_board,
                    st.r as int,
                    st.c as int,
                    st.vr as int,
                    st.vc as int,
                    r2,
                    c2,
                    vr2,
                    vc2,
                );
            }
        }
        s
    }
}

/// Every record already pushed is the admissible state of its position.
pub open spec fn inv_states_prefix(board: GameBoard, states: Seq<CarState>) -> bool {
    forall|i: int|
        0 <= i < states.len() ==> {
            let st = #[trigger] states[i];
            &&& board.state_in_range(st.r as int, st.c as int, st.vr as int, st.vc as int)
            &&& board.spec_raw_index(st.r as int, st.c as int, st.vr as int, st.vc as int) == i
            &&& st.index == i
        }
}

} // verus!
