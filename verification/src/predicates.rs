use vstd::prelude::*;
use crate::game_space::Grid;

verus! {

/// A boolean test over grid cells; implementors expose the tested
/// relation as a spec function.
pub trait GridPredicate {
    spec fn spec_test(&self, r: int, c: int) -> bool;

    /// The coordinates this predicate may be asked about.
    spec fn dom(&self, r: int, c: int) -> bool;

    fn test(&self, r: i32, c: i32) -> (b: bool)
        requires
            self.dom(r as int, c as int),
        ensures
            b == self.spec_test(r as int, c as int),
    ;
}

/// True at exactly one cell.
#[derive(Clone, Copy, PartialEq, Eq, Structural, Debug)]
pub struct SingletonPredicate {
    pub r: i32,
    pub c: i32,
}

impl SingletonPredicate {
    pub fn from(r: i32, c: i32) -> (p: SingletonPredicate)
        ensures
            p == (SingletonPredicate { r, c }),
    {
        SingletonPredicate { r, c }
    }
}

impl GridPredicate for SingletonPredicate {
    open spec fn spec_test(&self, r: int, c: int) -> bool {
        self.r == r && self.c == c
    }

    open spec fn dom(&self, r: int, c: int) -> bool {
        true
    }

    fn test(&self, r: i32, c: i32) -> (b: bool) {
        self.r == r && self.c == c
    }
}

/// A dense per-cell boolean table over a grid.
#[derive(Clone, Debug)]
pub struct Mask {
    pub grid: Grid,
    pub mask: Vec<bool>,
}

impl Mask {
    /// The table must cover the whole grid, one entry per cell.
    pub open spec fn wf(self) -> bool {
        self.grid.wf() && self.mask@.len() == self.grid.nr * self.grid.nc
    }

    pub fn from(grid: Grid, mask: Vec<bool>) -> (p: Mask)
        ensures
            p == (Mask { grid, mask }),
    {
        Mask { grid, mask }
    }
}

impl GridPredicate for Mask {
    open spec fn spec_test(&self, r: int, c: int) -> bool {
        self.mask@[self.grid.spec_index_of(r, c)]
    }

    open spec fn dom(&self, r: int, c: int) -> bool {
        self.wf() && self.grid.in_bounds(r, c)
    }

    fn test(&self, r: i32, c: i32) -> (b: bool) {
        let i = self.grid.to_index(r, c);
        self.mask[i]
    }
}

/// Tagged union of the two predicate shapes, so that a board can own
/// either without dynamic dispatch.
#[derive(Clone, Debug)]
pub enum CellPredicate {
    Singleton(SingletonPredicate),
    Dense(Mask),
}

impl CellPredicate {
    /// A dense table must match the grid it will be asked about.
    pub open spec fn wf(self, grid: Grid) -> bool {
        match self {
            CellPredicate::Singleton(_) => true,
            CellPredicate::Dense(m) => m.wf() && m.grid == grid,
        }
    }

    pub open spec fn spec_test(self, r: int, c: int) -> bool {
        match self {
            CellPredicate::Singleton(s) => s.spec_test(r, c),
            CellPredicate::Dense(m) => m.spec_test(r, c),
        }
    }

    pub fn test(&self, grid: &Grid, r: i32, c: i32) -> (b: bool)
        requires
            self.wf(*grid),
            grid.in_bounds(r as int, c as int),
        ensures
            b == self.spec_test(r as int, c as int),
    {
        match self {
            CellPredicate::Singleton(s) => s.test(r, c),
            CellPredicate::Dense(m) => m.test(r, c),
        }
    }
}

} // verus!
