//! The comparisons between amounts.

use vstd::prelude::*;

verus! {

/// The comparisons that a rule on an amount can make.
#[derive(Clone, Copy, Debug, PartialEq, Eq, Structural)]
pub enum CompareOp {
    /// Less than.
    Lt,
    /// Less than or equal.
    LtEq,
    /// Equal.
    Eq,
    /// Greater than or equal.
    GtEq,
    /// Greater than.
    Gt,
}

impl CompareOp {
    /// The number that stands for the comparison on the wire.
    pub open spec fn spec_code(self) -> u64 {
        match self {
            CompareOp::Lt => 0,
            CompareOp::LtEq => 1,
            CompareOp::Eq => 2,
            CompareOp::GtEq => 3,
            CompareOp::Gt => 4,
        }
    }

    /// The comparison that the number stands for, if it stands for one.
    pub open spec fn spec_from_code(code: u64) -> Option<CompareOp> {
        if code == 0 {
            Some(CompareOp::Lt)
        } else if code == 1 {
            Some(CompareOp::LtEq)
        } else if code == 2 {
            Some(CompareOp::Eq)
        } else if code == 3 {
            Some(CompareOp::GtEq)
        } else if code == 4 {
            Some(CompareOp::Gt)
        } else {
            None
        }
    }

    /// Whether `left` compares to `right` as the comparison says.
    pub open spec fn spec_holds(self, left: u64, right: u64) -> bool {
        match self {
            CompareOp::Lt => left < right,
            CompareOp::LtEq => left <= right,
            CompareOp::Eq => left == right,
            CompareOp::GtEq => left >= right,
            CompareOp::Gt => left > right,
        }
    }

    /// The number that stands for the comparison on the wire.
    pub fn code(&self) -> (code: u64)
        ensures
            code == self.spec_code(),
    {
        match self {
            CompareOp::Lt => 0,
            CompareOp::LtEq => 1,
            CompareOp::Eq => 2,
            CompareOp::GtEq => 3,
            CompareOp::Gt => 4,
        }
    }

    /// The comparison that the number stands for, if it stands for one.
    pub fn from_code(code: u64) -> (operator: Option<CompareOp>)
        ensures
            operator == CompareOp::spec_from_code(code),
    {
        if code == 0 {
            Some(CompareOp::Lt)
        } else if code == 1 {
            Some(CompareOp::LtEq)
        } else if code == 2 {
            Some(CompareOp::Eq)
        } else if code == 3 {
            Some(CompareOp::GtEq)
        } else if code == 4 {
            Some(CompareOp::Gt)
        } else {
            None
        }
    }

    /// Whether `left` compares to `right` as the comparison says.
    pub fn holds(&self, left: u64, right: u64) -> (held: bool)
        ensures
            held == self.spec_holds(left, right),
    {
        match self {
            CompareOp::Lt => left < right,
            CompareOp::LtEq => left <= right,
            CompareOp::Eq => left == right,
            CompareOp::GtEq => left >= right,
            CompareOp::Gt => left > right,
        }
    }
}

} // verus!
