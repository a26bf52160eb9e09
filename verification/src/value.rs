use vstd::prelude::*;

verus! {

/// Extended non-negative cost: a finite step count or +infinity.
///
/// Every transition of the model costs 0, 1 or +infinity, so the value
/// table holds exact integers extended with an absorbing infinity.
#[derive(Clone, Copy, PartialEq, Eq, Structural, Debug)]
pub enum Val {
    Fin(u64),
    Inf,
}

impl Val {
    pub open spec fn is_fin(self) -> bool {
        matches!(self, Val::Fin(_))
    }

    /// Order on extended costs: every finite value lies below infinity.
    pub open spec fn spec_le(self, other: Val) -> bool {
        match (self, other) {
            (Val::Fin(a), Val::Fin(b)) => a <= b,
            (Val::Fin(_), Val::Inf) => true,
            (Val::Inf, Val::Fin(_)) => false,
            (Val::Inf, Val::Inf) => true,
        }
    }

    pub open spec fn spec_lt(self, other: Val) -> bool {
        self.spec_le(other) && self != other
    }

    /// Addition on extended costs; a finite sum beyond `u64` saturates
    /// to infinity, and infinity is absorbing.
    pub open spec fn spec_add(self, other: Val) -> Val {
        match (self, other) {
            (Val::Fin(a), Val::Fin(b)) => if a + b <= u64::MAX {
                Val::Fin((a + b) as u64)
            } else {
                Val::Inf
            },
            _ => Val::Inf,
        }
    }

    pub open spec fn spec_min(self, other: Val) -> Val {
        if self.spec_le(other) {
            self
        } else {
            other
        }
    }

    pub fn le(&self, other: &Val) -> (r: bool)
        ensures
            r == self.spec_le(*other),
    {
        match (self, other) {
            (Val::Fin(a), Val::Fin(b)) => *a <= *b,
            (Val::Fin(_), Val::Inf) => true,
            (Val::Inf, _) => matches!(other, Val::Inf),
        }
    }

    pub fn lt(&self, other: &Val) -> (r: bool)
        ensures
            r == self.spec_lt(*other),
    {
        match (self, other) {
            (Val::Fin(a), Val::Fin(b)) => *a < *b,
            (Val::Fin(_), Val::Inf) => true,
            (Val::Inf, _) => false,
        }
    }

    pub fn add(&self, other: &Val) -> (r: Val)
        ensures
            r == self.spec_add(*other),
    {
        match (self, other) {
            (Val::Fin(a), Val::Fin(b)) => match a.checked_add(*b) {
                Some(s) => Val::Fin(s),
                None => Val::Inf,
            },
            _ => Val::Inf,
        }
    }
}

} // verus!
