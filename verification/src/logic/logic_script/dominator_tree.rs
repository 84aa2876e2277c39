use vstd::prelude::*;

verus! {

#[derive(Debug, Clone, Copy, PartialEq, Eq, Structural)]
pub enum DominatorTreeEdgeType {
    ImmediateDominator,
}

} // verus!
