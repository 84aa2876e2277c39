use vstd::prelude::*;
use std::ops::Range;

verus! {

/// A position in a script, as a byte offset.
#[derive(Debug, Clone, Copy, PartialEq, Eq, Structural, PartialOrd, Ord)]
pub struct ScriptLocation {
    pub offset: usize,
}

/// The span of a piece of a script.
pub type ScriptLocationRange = Range<ScriptLocation>;

/// The span from `start` to `end`.
pub fn location_range(start: usize, end: usize) -> (r: ScriptLocationRange)
    ensures
        r.start.offset == start,
        r.end.offset == end,
{
    ScriptLocation { offset: start }..ScriptLocation { offset: end }
}

/// A copy of a span.
pub fn copy_range(r: &ScriptLocationRange) -> (c: ScriptLocationRange)
    ensures
        c == *r,
{
    r.start..r.end
}

/// A value with the span of the script it came from.
#[derive(Debug)]
pub struct WithLocation<T> {
    pub value: T,
    pub location: ScriptLocationRange,
}

impl<T: Clone> Clone for WithLocation<T> {
    fn clone(&self) -> (r: Self) {
        WithLocation { value: self.value.clone(), location: copy_range(&self.location) }
    }
}

impl<T> WithLocation<T> {
    pub fn new(value: T, location: ScriptLocationRange) -> (r: Self)
        ensures
            r.value == value,
            r.location == location,
    {
        Self { value, location }
    }
}

} // verus!
