use vstd::prelude::*;

verus! {

/// Operators that may or may not let their operands change places.
pub trait LogicBinaryOperator {
    spec fn commutes(&self) -> bool;

    fn is_commutative(&self) -> (r: bool)
        ensures
            r == self.commutes(),
    ;
}

#[derive(Debug, Clone, Copy, PartialEq, Eq, Structural)]
pub enum LogicBooleanBinaryOperator {
    LessThan,
    LessThanOrEqual,
    GreaterThan,
    GreaterThanOrEqual,
    Equal,
    NotEqual,
}

impl LogicBinaryOperator for LogicBooleanBinaryOperator {
    /// Only equality and inequality commute.
    open spec fn commutes(&self) -> bool {
        *self == LogicBooleanBinaryOperator::Equal || *self == LogicBooleanBinaryOperator::NotEqual
    }

    fn is_commutative(&self) -> (r: bool) {
        match self {
            LogicBooleanBinaryOperator::Equal | LogicBooleanBinaryOperator::NotEqual => true,
            _ => false,
        }
    }
}

} // verus!
