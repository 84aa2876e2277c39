use vstd::prelude::*;

use crate::logic::logic_script::ast::LogicCommandNode;
use crate::logic::LogicConditionClause;

verus! {

#[derive(Debug, Clone)]
pub struct SinglePathBasicBlock {
    pub label: Option<String>,
    pub commands: Vec<LogicCommandNode>,
}

#[derive(Debug, Clone)]
pub struct ConditionalBasicBlock {
    pub label: Option<String>,
    pub conditions: Vec<LogicConditionClause>,
}

#[derive(Debug, Clone)]
pub enum BasicBlock {
    SinglePath(SinglePathBasicBlock),
    Conditional(ConditionalBasicBlock),
}

impl BasicBlock {
    pub open spec fn label_of(&self) -> Option<Seq<char>> {
        match self {
            BasicBlock::SinglePath(block) => match block.label {
                Some(l) => Some(l@),
                None => None,
            },
            BasicBlock::Conditional(block) => match block.label {
                Some(l) => Some(l@),
                None => None,
            },
        }
    }

    pub fn label(&self) -> (r: Option<&str>)
        ensures
            r matches Some(l) ==> self.label_of() == Some(l@),
            r is None ==> self.label_of() is None,
    {
        match self {
            BasicBlock::SinglePath(block) => match &block.label {
                Some(l) => Some(l.as_str()),
                None => None,
            },
            BasicBlock::Conditional(block) => match &block.label {
                Some(l) => Some(l.as_str()),
                None => None,
            },
        }
    }

    /// Gives the block another label; the rest stays.
    pub fn set_label(&mut self, label: Option<String>)
        ensures
            final(self).label_of() == (match label {
                Some(l) => Some(l@),
                None => None::<Seq<char>>,
            }),
            (*old(self)) is SinglePath ==> (*final(self)) is SinglePath && (*final(self))->SinglePath_0.commands
                == (*old(self))->SinglePath_0.commands,
            (*old(self)) is Conditional ==> (*final(self)) is Conditional && (*final(self))->Conditional_0.conditions
                == (*old(self))->Conditional_0.conditions,
    {
        match self {
            BasicBlock::SinglePath(block) => {
                block.label = label;
            },
            BasicBlock::Conditional(block) => {
                block.label = label;
            },
        }
    }
}

#[derive(Debug, Clone, Copy, PartialEq, Eq, Structural)]
pub enum BasicBlockEdgeType {
    Next,
    IfThen,
    IfElse,
}

} // verus!
