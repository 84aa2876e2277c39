use vstd::prelude::*;

verus! {

#[derive(Debug, Clone, PartialEq, Eq, Structural)]
pub struct LogicNumberLiteral {
    pub value: i32,
}

#[derive(Debug, Clone, PartialEq, Eq)]
pub struct LogicStringLiteral {
    pub value: String,
}

impl LogicStringLiteral {
    pub fn value(&self) -> (r: &str)
        ensures
            r@ == self.value@,
    {
        self.value.as_str()
    }
}

#[derive(Debug, Clone, PartialEq, Eq)]
pub enum LogicLiteralValue {
    Number(LogicNumberLiteral),
    String(LogicStringLiteral),
}

impl LogicLiteralValue {
    pub fn from_string(value: String) -> (r: LogicLiteralValue)
        ensures
            r matches LogicLiteralValue::String(s) && s.value@ == value@,
    {
        LogicLiteralValue::String(LogicStringLiteral { value })
    }
}

#[derive(Debug, Clone, PartialEq, Eq)]
pub struct LogicLiteral {
    pub value: LogicLiteralValue,
}

} // verus!
