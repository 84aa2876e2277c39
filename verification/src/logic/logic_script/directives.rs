use vstd::prelude::*;

use crate::logic::assembly::expressions::LogicIdentifier;
use crate::logic::assembly::literals::LogicNumberLiteral;
use crate::logic::logic_script::literals::{
    literal_view, string_parts_view, LiteralView, LogicScriptLiteral, LogicScriptStringLiteral, StringPartView,
};

verus! {

#[derive(Debug, Clone)]
pub enum LogicScriptDefineValue {
    Literal(LogicScriptLiteral),
    Identifier(LogicIdentifier),
}

#[derive(Debug, Clone)]
pub enum Directive {
    Message { number: LogicNumberLiteral, message: LogicScriptStringLiteral },
    Include { filename: LogicScriptStringLiteral },
    Define { identifier: LogicIdentifier, value: LogicScriptDefineValue },
}

#[derive(Debug, Clone, Copy, PartialEq, Eq, Structural)]
pub enum DirectiveType {
    Message,
    Include,
    Define,
}

#[derive(Debug, Clone, Copy, PartialEq, Eq, Structural)]
pub struct LogicScriptDirectiveKeyword {
    pub keyword: DirectiveType,
}

#[derive(Debug, Clone)]
pub struct LogicScriptDirective {
    pub directive: Directive,
    pub keyword: LogicScriptDirectiveKeyword,
}

/// What a `#define` gives its name.
pub enum DefineValueView {
    Literal(LiteralView),
    Identifier(Seq<char>),
}

/// What a directive says.
pub enum DirectiveView {
    Message { number: int, message: Seq<StringPartView> },
    Include { filename: Seq<StringPartView> },
    Define { identifier: Seq<char>, value: DefineValueView },
}

pub open spec fn define_value_view(v: LogicScriptDefineValue) -> DefineValueView {
    match v {
        LogicScriptDefineValue::Literal(l) => DefineValueView::Literal(literal_view(l)),
        LogicScriptDefineValue::Identifier(i) => DefineValueView::Identifier(i.name@),
    }
}

pub open spec fn directive_view(d: Directive) -> DirectiveView {
    match d {
        Directive::Message { number, message } => DirectiveView::Message {
            number: number.value as int,
            message: string_parts_view(message.parts@),
        },
        Directive::Include { filename } => DirectiveView::Include { filename: string_parts_view(filename.parts@) },
        Directive::Define { identifier, value } => DirectiveView::Define {
            identifier: identifier.name@,
            value: define_value_view(value),
        },
    }
}

} // verus!
