use vstd::prelude::*;

use crate::logic::assembly::operators::LogicBinaryOperator;

verus! {

#[derive(Debug, Clone, Copy, PartialEq, Eq, Structural)]
pub enum LogicScriptUnaryAssignmentOperator {
    Increment,
    Decrement,
}

#[derive(Debug, Clone, Copy, PartialEq, Eq, Structural)]
pub enum LogicScriptArithmeticOperator {
    Add,
    Subtract,
    Multiply,
    Divide,
}

impl LogicBinaryOperator for LogicScriptArithmeticOperator {
    /// Addition and multiplication commute.
    open spec fn commutes(&self) -> bool {
        *self == LogicScriptArithmeticOperator::Add || *self == LogicScriptArithmeticOperator::Multiply
    }

    fn is_commutative(&self) -> (r: bool) {
        match self {
            LogicScriptArithmeticOperator::Add | LogicScriptArithmeticOperator::Multiply => true,
            _ => false,
        }
    }
}

/// The comparisons of a script condition.
#[derive(Debug, Clone, Copy, PartialEq, Eq, Structural)]
pub enum LogicScriptBooleanBinaryOperator {
    LessThan,
    LessThanOrEqual,
    GreaterThan,
    GreaterThanOrEqual,
    Equal,
    NotEqual,
}

impl LogicBinaryOperator for LogicScriptBooleanBinaryOperator {
    /// Only equality and inequality commute.
    open spec fn commutes(&self) -> bool {
        *self == LogicScriptBooleanBinaryOperator::Equal || *self == LogicScriptBooleanBinaryOperator::NotEqual
    }

    fn is_commutative(&self) -> (r: bool) {
        match self {
            LogicScriptBooleanBinaryOperator::Equal | LogicScriptBooleanBinaryOperator::NotEqual => true,
            _ => false,
        }
    }
}

} // verus!
