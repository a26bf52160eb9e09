use vstd::prelude::*;
use vstd::std_specs::iter::IteratorSpec;
use crate::predicates::{CellPredicate, GridPredicate, Mask, SingletonPredicate};

verus! {

/// Immutable rectangular coordinate system with row-major indexing.
#[derive(Clone, Copy, PartialEq, Eq, Structural, Debug)]
pub struct Grid {
    pub nr: i32,
    pub nc: i32,
}

impl Grid {
    /// A grid is well formed when both dimensions are positive and small
    /// enough that every row-major index fits comfortably in an `i32`.
    pub open spec fn wf(self) -> bool {
        1 <= self.nr <= 0x8000 && 1 <= self.nc <= 0x8000
    }

    /// Row-major cell index as a mathematical integer.
    pub open spec fn spec_index_of(self, r: int, c: int) -> int {
        r * self.nc + c
    }

    pub open spec fn in_bounds(self, r: int, c: int) -> bool {
        0 <= r < self.nr && 0 <= c < self.nc
    }

    /// Row major indexing
    pub fn to_index(&self, r: i32, c: i32) -> (i: usize)
        requires
            self.wf(),
            self.in_bounds(r as int, c as int),
        ensures
            i == self.spec_index_of(r as int, c as int),
            i < self.nr * self.nc,
    {
        proof {
            lemma_row_major_bounds(*self, r as int, c as int);
        }
        (r * self.nc + c) as usize
    }

    /// Row major indexing, inverted: recover `(r, c)` from an index.
    pub fn to_row_col(&self, i: i32) -> (rc: (i32, i32))
        requires
            self.wf(),
            0 <= i < self.nr * self.nc,
        ensures
            rc.0 == i as int / self.nc as int,
            rc.1 == i as int % self.nc as int,
            self.in_bounds(rc.0 as int, rc.1 as int),
            self.spec_index_of(rc.0 as int, rc.1 as int) == i,
    {
        proof {
            let q = i as int / self.nc as int;
            let m = i as int % self.nc as int;
            vstd::arithmetic::div_mod::lemma_fundamental_div_mod(i as int, self.nc as int);
            vstd::arithmetic::div_mod::lemma_mod_division_less_than_divisor(i as int, self.nc as int);
            assert(0 <= q < self.nr) by (nonlinear_arith)
                requires
                    i as int == self.nc as int * q + m,
                    0 <= m < self.nc,
                    0 <= i < self.nr * self.nc,
                    self.nc >= 1,
            {}
        }
        (i / self.nc, i % self.nc)
    }
}

/// The track: a grid, a validity predicate, a goal predicate, the speed
/// bound and the start cell. Immutable after construction.
#[derive(Clone, Debug)]
pub struct GameBoard {
    pub grid: Grid,
    pub mask: CellPredicate,
    pub goal: CellPredicate,
    pub max_speed: i32,
    pub start_r: i32,
    pub start_c: i32,
}

impl GameBoard {
    /// Well-formedness: predicates match the grid, the start cell is a
    /// valid cell, and the whole state space (one slot per cell and
    /// velocity pair) fits comfortably in an `i32` index.
    pub open spec fn wf(self) -> bool {
        &&& self.grid.wf()
        &&& self.mask.wf(self.grid)
        &&& self.goal.wf(self.grid)
        &&& 0 <= self.max_speed <= 0x2000
        &&& self.grid.in_bounds(self.start_r as int, self.start_c as int)
        &&& self.mask.spec_test(self.start_r as int, self.start_c as int)
        &&& self.grid.nr * self.grid.nc * self.spec_n_speed() * self.spec_n_speed() <= 0x40000000
    }

    /// Number of velocity components per axis.
    pub open spec fn spec_n_speed(self) -> int {
        2 * self.max_speed + 1
    }

    pub open spec fn spec_valid(self, r: int, c: int) -> bool {
        self.mask.spec_test(r, c)
    }

    pub open spec fn spec_goal(self, r: int, c: int) -> bool {
        self.goal.spec_test(r, c)
    }

    pub fn new(
        grid: Grid,
        mask: CellPredicate,
        goal: CellPredicate,
        max_speed: i32,
        start_r: i32,
        start_c: i32,
    ) -> (b: GameBoard)
        requires
            (GameBoard { grid, mask, goal, max_speed, start_r, start_c }).wf(),
        ensures
            b == (GameBoard { grid, mask, goal, max_speed, start_r, start_c }),
            b.wf(),
    {
        GameBoard { grid, mask, goal, max_speed, start_r, start_c }
    }

    pub fn is_valid(&self, r: i32, c: i32) -> (b: bool)
        requires
            self.wf(),
            self.grid.in_bounds(r as int, c as int),
        ensures
            b == self.spec_valid(r as int, c as int),
    {
        self.mask.test(&self.grid, r, c)
    }

    pub fn is_goal(&self, r: i32, c: i32) -> (b: bool)
        requires
            self.wf(),
            self.grid.in_bounds(r as int, c as int),
        ensures
            b == self.spec_goal(r as int, c as int),
    {
        self.goal.test(&self.grid, r, c)
    }
}

/// Row-major order is monotone: an earlier cell has a smaller index.
pub proof fn lemma_row_major_mono(nc: int, r1: int, c1: int, r2: int, c2: int)
    requires
        0 <= c1 < nc,
        0 <= c2,
        r1 < r2 || (r1 == r2 && c1 < c2),
    ensures
        r1 * nc + c1 < r2 * nc + c2,
{
    assert(r1 * nc + c1 < r2 * nc + c2) by (nonlinear_arith)
        requires
            0 <= c1 < nc,
            0 <= c2,
            r1 < r2 || (r1 == r2 && c1 < c2),
    {}
}

/// The fixed start cell `(1, nc/2 + 1)` of the circular track always lies
/// inside the annulus and off the slit.
proof fn lemma_circ_start_valid(nr: int, nc: int)
    requires
        2 <= nr,
        3 <= nc,
    ensures
        spec_circ_valid(nr, nc, 1, nc / 2 + 1),
{
    let h = nr / 2;
    let m2 = nr % 2;
    vstd::arithmetic::div_mod::lemma_fundamental_div_mod(nr, 2);
    let s = spec_dist_sq(1, nc / 2 + 1, h, nc / 2);
    let d = nc / 2 - (nc / 2 + 1);
    assert(d == -1);
    assert(d * d == 1) by (nonlinear_arith)
        requires
            d == -1,
    {}
    assert(s == (h - 1) * (h - 1) + 1);
    assert(16 * ((h - 1) * (h - 1) + 1) >= nr * nr && 4 * ((h - 1) * (h - 1) + 1) <= nr * nr)
        by (nonlinear_arith)
        requires
            nr == 2 * h + m2,
            0 <= m2 < 2,
            2 <= nr,
    {
        assert(h >= 1);
        assert((6 * h - 8) * (6 * h - 8) >= 0);
        assert((6 * h - 9) * (6 * h - 9) >= 0);
    }
}

impl GameBoard {
    /// Procedural circular track: validity is an annulus around the grid
    /// center with a forced vertical slit below it, the goal is the single
    /// cell `(1, nc/2 - 1)` and the start is `(1, nc/2 + 1)`.
    pub fn generate_circ_track(nr: i32, nc: i32, max_speed: i32) -> (b: GameBoard)
        requires
            2 <= nr <= 0x8000,
            3 <= nc <= 0x8000,
            0 <= max_speed <= 0x2000,
            nr * nc * (2 * max_speed + 1) * (2 * max_speed + 1) <= 0x40000000,
        ensures
            b.wf(),
            b.grid == (Grid { nr, nc }),
            b.max_speed == max_speed,
            b.start_r == 1,
            b.start_c == nc as int / 2 + 1,
            forall|r: int, c: int|
                b.grid.in_bounds(r, c) ==> b.spec_valid(r, c) == spec_circ_valid(
                    nr as int,
                    nc as int,
                    r,
                    c,
                ),
            forall|r: int, c: int|
                b.spec_goal(r, c) == (r == 1 && c == nc as int / 2 - 1),
    {
        let grid = Grid { nr, nc };
        let rc = nr / 2;
        let cc = nc / 2;
        proof {
            vstd::arithmetic::div_mod::lemma_fundamental_div_mod(nr as int, 2);
            vstd::arithmetic::div_mod::lemma_fundamental_div_mod(nc as int, 2);
            vstd::arithmetic::div_mod::lemma_mod_division_less_than_divisor(nr as int, 2);
            vstd::arithmetic::div_mod::lemma_mod_division_less_than_divisor(nc as int, 2);
            assert((nr as int) * (nr as int) <= 0x40000000) by (nonlinear_arith)
                requires
                    0 <= nr <= 0x8000,
            {}
        }
        let goal = SingletonPredicate::from(1, cc - 1);
        let nr_sq: i64 = (nr as i64) * (nr as i64);
        let mut mask: Vec<bool> = Vec::new();
        let mut r: i32 = 0;
        while r < nr
            invariant
                0 <= r <= nr,
                2 <= nr <= 0x8000,
                3 <= nc <= 0x8000,
                rc == nr as int / 2,
                cc == nc as int / 2,
                0 <= rc <= 0x4000,
                0 <= cc <= 0x4000,
                nr_sq == nr as int * nr as int,
                mask@.len() == r * nc,
                forall|rr: int, ccc: int|
                    0 <= rr < r && 0 <= ccc < nc ==> #[trigger] mask@[rr * nc + ccc]
                        == spec_circ_valid(nr as int, nc as int, rr, ccc),
            decreases nr - r,
        {
            let mut c: i32 = 0;
            while c < nc
                invariant
                    0 <= r < nr,
                    0 <= c <= nc,
                    2 <= nr <= 0x8000,
                    3 <= nc <= 0x8000,
                    rc == nr as int / 2,
                    cc == nc as int / 2,
                    0 <= rc <= 0x4000,
                    0 <= cc <= 0x4000,
                    nr_sq == nr as int * nr as int,
                    mask@.len() == r * nc + c,
                    forall|rr: int, ccc: int|
                        0 <= ccc < nc && (0 <= rr < r || (rr == r && 0 <= ccc < c))
                            ==> #[trigger] mask@[rr * nc + ccc] == spec_circ_valid(
                            nr as int,
                            nc as int,
                            rr,
                            ccc,
                        ),
                decreases nc - c,
            {
                let dr: i64 = (rc as i64) - (r as i64);
                let dc: i64 = (cc as i64) - (c as i64);
                proof {
                    assert(dr * dr + dc * dc <= 0x100000000) by (nonlinear_arith)
                        requires
                            -0x8000 <= dr <= 0x8000,
                            -0x8000 <= dc <= 0x8000,
                    {}
                    assert(dr * dr >= 0 && dc * dc >= 0) by (nonlinear_arith)
                    {}
                }
                let s: i64 = dr * dr + dc * dc;
                let in_ring = 16 * s >= nr_sq && 4 * s <= nr_sq;
                let on_slit = c == cc && r < rc;
                let ok = in_ring && !on_slit;
                assert(ok == spec_circ_valid(nr as int, nc as int, r as int, c as int));
                mask.push(ok);
                proof {
                    assert forall|rr: int, ccc: int|
                        0 <= ccc < nc && (0 <= rr < r || (rr == r && 0 <= ccc < c + 1))
                            implies #[trigger] mask@[rr * nc + ccc] == spec_circ_valid(
                            nr as int,
                            nc as int,
                            rr,
                            ccc,
                        ) by {
                        if rr == r && ccc == c {
                        } else {
                            lemma_row_major_mono(nc as int, rr, ccc, r as int, c as int);
                        }
                    }
                }
                c = c + 1;
            }
            proof {
                assert((r + 1) * nc == r * nc + nc) by (nonlinear_arith) {}
            }
            r = r + 1;
        }
        let mask = Mask::from(grid, mask);
        proof {
            lemma_circ_start_valid(nr as int, nc as int);
            lemma_row_major_bounds(grid, 1, nc as int / 2 + 1);
            assert(nc as int / 2 + 1 < nc && 0 <= nc as int / 2 - 1) by {
                vstd::arithmetic::div_mod::lemma_fundamental_div_mod(nc as int, 2);
            }
            assert(mask.spec_test(1, nc as int / 2 + 1));
        }
        GameBoard::new(
            grid,
            CellPredicate::Dense(mask),
            CellPredicate::Singleton(goal),
            max_speed,
            1,
            cc + 1,
        )
    }
}

/// Classification of one table token after trimming: free cell, wall,
/// goal, start, or unrecognized.
#[derive(Clone, Copy, PartialEq, Eq, Structural, Debug)]
pub enum Token {
    Free,
    Wall,
    Goal,
    Start,
    Bad,
}

/// Fatal configuration errors of the tabular board description.
#[derive(Clone, Copy, PartialEq, Eq, Structural, Debug)]
pub enum ConfigError {
    EmptyGrid,
    RaggedRows,
    UnrecognizedToken,
    MissingStart,
    MultipleStart,
}

pub open spec fn is_space_char(ch: char) -> bool {
    ch == ' ' || ch == '\t' || ch == '\r' || ch == '\n'
}

pub open spec fn trim_front(s: Seq<char>) -> Seq<char>
    decreases s.len(),
{
    if s.len() > 0 && is_space_char(s[0]) {
        trim_front(s.drop_first())
    } else {
        s
    }
}

pub open spec fn trim_back(s: Seq<char>) -> Seq<char>
    decreases s.len(),
{
    if s.len() > 0 && is_space_char(s.last()) {
        trim_back(s.drop_last())
    } else {
        s
    }
}

/// The token text with surrounding whitespace removed.
pub open spec fn spec_trim(s: Seq<char>) -> Seq<char> {
    trim_back(trim_front(s))
}

/// Case-insensitive reading of a single-character token.
pub open spec fn spec_token(s: Seq<char>) -> Token {
    let t = spec_trim(s);
    if t.len() != 1 {
        Token::Bad
    } else if t[0] == '_' {
        Token::Free
    } else if t[0] == 'x' || t[0] == 'X' {
        Token::Wall
    } else if t[0] == '!' {
        Token::Goal
    } else if t[0] == 's' || t[0] == 'S' {
        Token::Start
    } else {
        Token::Bad
    }
}

/// Copy the characters of a string into a vector.
fn chars_of(s: &str) -> (v: Vec<char>)
    ensures
        v@ == s@,
{
    broadcast use vstd::string::next_postcondition;
    broadcast use vstd::string::axiom_spec_iter;

    let mut it = s.chars();
    let mut v: Vec<char> = Vec::new();
    loop
        invariant
            it.obeys_prophetic_iter_laws(),
            v@ + it.remaining() == s@,
            v@.len() <= s@.len(),
        decreases s@.len() - v@.len(),
    {
        match it.next() {
            Some(ch) => {
                v.push(ch);
            },
            None => {
                return v;
            },
        }
    }
}

fn exec_is_space(ch: char) -> (b: bool)
    ensures
        b == is_space_char(ch),
{
    ch == ' ' || ch == '\t' || ch == '\r' || ch == '\n'
}

/// Classify one token string.
pub fn classify_token(s: &String) -> (t: Token)
    ensures
        t == spec_token(s@),
{
    let v = chars_of(s.as_str());
    let n = v.len();
    proof {
        assert(s@.skip(0) =~= s@);
    }
    let mut i: usize = 0;
    while i < n && exec_is_space(v[i])
        invariant
            0 <= i <= n,
            n == v@.len(),
            v@ == s@,
            trim_front(s@) == trim_front(s@.skip(i as int)),
        decreases n - i,
    {
        proof {
            assert(s@.skip(i as int).drop_first() =~= s@.skip(i as int + 1));
        }
        i = i + 1;
    }
    proof {
        assert(trim_front(s@) == s@.skip(i as int)) by {
            if i < n {
                assert(!is_space_char(s@.skip(i as int)[0]));
            } else {
                assert(s@.skip(i as int).len() == 0);
            }
        }
    }
    let mut j: usize = n;
    while j > i && exec_is_space(v[j - 1])
        invariant
            i <= j <= n,
            n == v@.len(),
            v@ == s@,
            trim_front(s@) == s@.skip(i as int),
            trim_back(s@.skip(i as int)) == trim_back(s@.subrange(i as int, j as int)),
        decreases j,
    {
        proof {
            assert(s@.skip(i as int) =~= s@.subrange(i as int, n as int));
            assert(s@.subrange(i as int, j as int).drop_last() =~= s@.subrange(
                i as int,
                j as int - 1,
            ));
        }
        j = j - 1;
    }
    proof {
        assert(s@.skip(i as int) =~= s@.subrange(i as int, n as int));
        let t = s@.subrange(i as int, j as int);
        assert(spec_trim(s@) == t) by {
            if j > i {
                assert(t.last() == s@[j as int - 1]);
                assert(!is_space_char(t.last()));
            } else {
                assert(t.len() == 0);
            }
        }
    }
    if j - i != 1 {
        return Token::Bad;
    }
    proof {
        assert(spec_trim(s@)[0] == s@[i as int]);
    }
    let ch = v[i];
    if ch == '_' {
        Token::Free
    } else if ch == 'x' || ch == 'X' {
        Token::Wall
    } else if ch == '!' {
        Token::Goal
    } else if ch == 's' || ch == 'S' {
        Token::Start
    } else {
        Token::Bad
    }
}

/// Token of one table cell.
pub open spec fn spec_cell_token(data: Seq<Vec<String>>, r: int, c: int) -> Token {
    spec_token(data[r]@[c]@)
}

/// Number of start tokens in row `r` among its first `c` cells.
pub open spec fn starts_in_row(data: Seq<Vec<String>>, r: int, c: int) -> int
    decreases c,
{
    if c <= 0 {
        0
    } else {
        starts_in_row(data, r, c - 1) + if spec_cell_token(data, r, c - 1) == Token::Start {
            1int
        } else {
            0int
        }
    }
}

/// Number of start tokens in the first `r` full rows.
pub open spec fn starts_upto(data: Seq<Vec<String>>, r: int) -> int
    decreases r,
{
    if r <= 0 {
        0
    } else {
        starts_upto(data, r - 1) + starts_in_row(data, r - 1, data[r - 1]@.len() as int)
    }
}

/// Total number of start tokens in the table.
pub open spec fn spec_start_count(data: Seq<Vec<String>>) -> int {
    starts_upto(data, data.len() as int)
}

/// The table is non-empty and rectangular.
pub open spec fn spec_rect(data: Seq<Vec<String>>) -> bool {
    &&& data.len() > 0
    &&& data[0]@.len() > 0
    &&& forall|r: int| 0 <= r < data.len() ==> (#[trigger] data[r]@).len() == data[0]@.len()
}

/// Every token of the table is recognized.
pub open spec fn spec_tokens_ok(data: Seq<Vec<String>>) -> bool {
    forall|r: int, c: int|
        0 <= r < data.len() && 0 <= c < data[r]@.len() ==> #[trigger] spec_cell_token(data, r, c)
            != Token::Bad
}

impl GameBoard {
    /// Build a board from a rectangular table of tokens (`_` free, `x`
    /// wall, `!` goal, `s` start, case-insensitive, trimmed). The table
    /// rows are taken bottom-up by the caller; here row 0 is board row 0.
    pub fn read_data(data: Vec<Vec<String>>, max_speed: i32) -> (res: Result<
        GameBoard,
        ConfigError,
    >)
        requires
            0 <= max_speed <= 0x2000,
            data@.len() <= 0x8000,
            forall|r: int| 0 <= r < data@.len() ==> (#[trigger] data@[r]@).len() <= 0x8000,
            spec_rect(data@) ==> data@.len() * data@[0]@.len() * (2 * max_speed + 1) * (2
                * max_speed + 1) <= 0x40000000,
        ensures
            res is Err <==> !(spec_rect(data@) && spec_tokens_ok(data@) && spec_start_count(data@)
                == 1),
            res == Err::<GameBoard, ConfigError>(ConfigError::EmptyGrid) <==> (data@.len() == 0
                || data@[0]@.len() == 0),
            data@.len() > 0 && data@[0]@.len() > 0 && !spec_rect(data@) ==> res == Err::<
                GameBoard,
                ConfigError,
            >(ConfigError::RaggedRows),
            spec_rect(data@) && !spec_tokens_ok(data@) ==> res == Err::<GameBoard, ConfigError>(
                ConfigError::UnrecognizedToken,
            ),
            spec_rect(data@) && spec_tokens_ok(data@) && spec_start_count(data@) == 0 ==> res
                == Err::<GameBoard, ConfigError>(ConfigError::MissingStart),
            spec_rect(data@) && spec_tokens_ok(data@) && spec_start_count(data@) >= 2 ==> res
                == Err::<GameBoard, ConfigError>(ConfigError::MultipleStart),
            res matches Ok(b) ==> {
                &&& b.wf()
                &&& b.grid.nr == data@.len()
                &&& b.grid.nc == data@[0]@.len()
                &&& b.max_speed == max_speed
                &&& b.grid.in_bounds(b.start_r as int, b.start_c as int)
                &&& spec_cell_token(data@, b.start_r as int, b.start_c as int) == Token::Start
                &&& forall|r: int, c: int|
                    b.grid.in_bounds(r, c) ==> b.spec_valid(r, c) == (spec_cell_token(data@, r, c)
                        != Token::Wall)
                &&& forall|r: int, c: int|
                    b.grid.in_bounds(r, c) ==> b.spec_goal(r, c) == (spec_cell_token(data@, r, c)
                        == Token::Goal)
            },
    {
        let nr = data.len();
        if nr == 0 {
            return Err(ConfigError::EmptyGrid);
        }
        let nc = data[0].len();
        if nc == 0 {
            return Err(ConfigError::EmptyGrid);
        }
        let mut r: usize = 1;
        while r < nr
            invariant
                1 <= r <= nr,
                1 <= nc,
                nr == data@.len(),
                nc == data@[0]@.len(),
                forall|rr: int| 0 <= rr < r ==> (#[trigger] data@[rr]@).len() == nc,
            decreases nr - r,
        {
            if data[r].len() != nc {
                return Err(ConfigError::RaggedRows);
            }
            r = r + 1;
        }
        assert(spec_rect(data@));
        proof {
            assert(nr * nc <= 0x40000000) by (nonlinear_arith)
                requires
                    0 <= nr <= 0x8000,
                    0 <= nc <= 0x8000,
            {}
        }
        let grid = Grid { nr: nr as i32, nc: nc as i32 };
        let mut mask: Vec<bool> = Vec::new();
        let mut goal: Vec<bool> = Vec::new();
        let mut count: usize = 0;
        let mut sr: i32 = 0;
        let mut sc: i32 = 0;
        let mut r: usize = 0;
        while r < nr
            invariant
                0 <= r <= nr,
                nr == data@.len(),
                nc == data@[0]@.len(),
                1 <= nr <= 0x8000,
                1 <= nc <= 0x8000,
                nr * nc <= 0x40000000,
                spec_rect(data@),
                mask@.len() == r * nc,
                goal@.len() == r * nc,
                forall|rr: int, cc: int|
                    0 <= rr < r && 0 <= cc < nc ==> #[trigger] mask@[rr * nc + cc] == (
                    spec_cell_token(data@, rr, cc) != Token::Wall),
                forall|rr: int, cc: int|
                    0 <= rr < r && 0 <= cc < nc ==> #[trigger] goal@[rr * nc + cc] == (
                    spec_cell_token(data@, rr, cc) == Token::Goal),
                forall|rr: int, cc: int|
                    0 <= rr < r && 0 <= cc < nc ==> #[trigger] spec_cell_token(data@, rr, cc)
                        != Token::Bad,
                count == starts_upto(data@, r as int),
                count <= r * nc,
                count == 1 ==> 0 <= sr < r && 0 <= sc < nc && spec_cell_token(
                    data@,
                    sr as int,
                    sc as int,
                ) == Token::Start,
            decreases nr - r,
        {
            let mut c: usize = 0;
            while c < nc
                invariant
                    0 <= r < nr,
                    0 <= c <= nc,
                    nr == data@.len(),
                    nc == data@[0]@.len(),
                    1 <= nr <= 0x8000,
                    1 <= nc <= 0x8000,
                    nr * nc <= 0x40000000,
                    spec_rect(data@),
                    mask@.len() == r * nc + c,
                    goal@.len() == r * nc + c,
                    forall|rr: int, cc: int|
                        0 <= cc < nc && (0 <= rr < r || (rr == r && 0 <= cc < c))
                            ==> #[trigger] mask@[rr * nc + cc] == (spec_cell_token(data@, rr, cc)
                            != Token::Wall),
                    forall|rr: int, cc: int|
                        0 <= cc < nc && (0 <= rr < r || (rr == r && 0 <= cc < c))
                            ==> #[trigger] goal@[rr * nc + cc] == (spec_cell_token(data@, rr, cc)
                            == Token::Goal),
                    forall|rr: int, cc: int|
                        0 <= cc < nc && (0 <= rr < r || (rr == r && 0 <= cc < c))
                            ==> #[trigger] spec_cell_token(data@, rr, cc) != Token::Bad,
                    count == starts_upto(data@, r as int) + starts_in_row(data@, r as int, c as int),
                    count <= r * nc + c,
                    count == 1 ==> (0 <= sr <= r && 0 <= sc < nc && (sr < r || sc < c)
                        && spec_cell_token(data@, sr as int, sc as int) == Token::Start),
                decreases nc - c,
            {
                let t = classify_token(&data[r][c]);
                assert(t == spec_cell_token(data@, r as int, c as int));
                if matches!(t, Token::Bad) {
                    return Err(ConfigError::UnrecognizedToken);
                }
                mask.push(!matches!(t, Token::Wall));
                goal.push(matches!(t, Token::Goal));
                if matches!(t, Token::Start) {
                    proof {
                        lemma_row_major_mono(nc as int, r as int, c as int, nr as int, 0);
                    }
                    count = count + 1;
                    sr = r as i32;
                    sc = c as i32;
                }
                proof {
                    assert(starts_in_row(data@, r as int, c as int + 1) == starts_in_row(
                        data@,
                        r as int,
                        c as int,
                    ) + if spec_cell_token(data@, r as int, c as int) == Token::Start {
                        1int
                    } else {
                        0int
                    });
                    assert forall|rr: int, cc: int|
                        0 <= cc < nc && (0 <= rr < r || (rr == r && 0 <= cc < c + 1))
                            implies #[trigger] mask@[rr * nc + cc] == (spec_cell_token(
                        data@,
                        rr,
                        cc,
                    ) != Token::Wall) by {
                        if !(rr == r && cc == c) {
                            lemma_row_major_mono(nc as int, rr, cc, r as int, c as int);
                        }
                    }
                    assert forall|rr: int, cc: int|
                        0 <= cc < nc && (0 <= rr < r || (rr == r && 0 <= cc < c + 1))
                            implies #[trigger] goal@[rr * nc + cc] == (spec_cell_token(
                        data@,
                        rr,
                        cc,
                    ) == Token::Goal) by {
                        if !(rr == r && cc == c) {
                            lemma_row_major_mono(nc as int, rr, cc, r as int, c as int);
                        }
                    }
                }
                c = c + 1;
            }
            proof {
                assert(starts_upto(data@, r as int + 1) == starts_upto(data@, r as int)
                    + starts_in_row(data@, r as int, data@[r as int]@.len() as int));
                assert((r + 1) * nc == r * nc + nc) by (nonlinear_arith) {}
            }
            r = r + 1;
        }
        if count == 0 {
            assert(spec_start_count(data@) == 0);
            return Err(ConfigError::MissingStart);
        }
        if count > 1 {
            return Err(ConfigError::MultipleStart);
        }
        let mask = Mask::from(grid, mask);
        let goal = Mask::from(grid, goal);
        proof {
            lemma_row_major_bounds(grid, sr as int, sc as int);
            assert(mask.spec_test(sr as int, sc as int));
        }
        Ok(
            GameBoard::new(
                grid,
                CellPredicate::Dense(mask),
                CellPredicate::Dense(goal),
                max_speed,
                sr,
                sc,
            ),
        )
    }
}

/// Squared Euclidean distance between two cell centers.
pub open spec fn spec_dist_sq(r1: int, c1: int, r2: int, c2: int) -> int {
    (r2 - r1) * (r2 - r1) + (c2 - c1) * (c2 - c1)
}

/// Validity rule of the procedural circular track: the cell lies in the
/// closed annulus of radii `nr/4` and `nr/2` (as real radii, compared by
/// squares) around the grid center, and not on the vertical start/finish
/// slit in the lower half of the center column.
pub open spec fn spec_circ_valid(nr: int, nc: int, r: int, c: int) -> bool {
    let s = spec_dist_sq(r, c, nr / 2, nc / 2);
    &&& 16 * s >= nr * nr
    &&& 4 * s <= nr * nr
    &&& !(c == nc / 2 && 0 <= r < nr / 2)
}

/// A row-major index of an in-bounds cell lies below `nr * nc`.
pub proof fn lemma_row_major_bounds(g: Grid, r: int, c: int)
    requires
        g.wf(),
        g.in_bounds(r, c),
    ensures
        0 <= g.spec_index_of(r, c) < g.nr * g.nc,
        g.nr * g.nc <= 0x40000000,
{
    assert(0 <= r * g.nc + c < g.nr * g.nc && g.nr * g.nc <= 0x40000000) by (nonlinear_arith)
        requires
            0 <= r < g.nr,
            0 <= c < g.nc,
            1 <= g.nr <= 0x8000,
            1 <= g.nc <= 0x8000,
    {}
}

} // verus!
