use vstd::prelude::*;
use vstd::string::StringExecFns;

use crate::logic::assembly::literals::{LogicLiteral, LogicLiteralValue, LogicNumberLiteral, LogicStringLiteral};
use crate::logic::logic_script::statements::LogicScriptComment;

verus! {

#[derive(Debug, Clone, PartialEq, Eq)]
pub struct LogicScriptSingleStringLiteral {
    pub value: String,
}

/// A piece of a string literal as written: text, or a comment between pieces.
#[derive(Debug, Clone, PartialEq, Eq)]
pub enum LogicScriptStringLiteralPart {
    SingleString(LogicScriptSingleStringLiteral),
    Comment(LogicScriptComment),
}

#[derive(Debug, Clone, PartialEq, Eq)]
pub struct LogicScriptStringLiteral {
    pub parts: Vec<LogicScriptStringLiteralPart>,
}

/// The text of some parts: the text pieces one after another, the comments left out.
pub open spec fn parts_text(parts: Seq<LogicScriptStringLiteralPart>) -> Seq<char>
    decreases parts.len(),
{
    if parts.len() == 0 {
        Seq::empty()
    } else {
        parts_text(parts.drop_last()) + match parts.last() {
            LogicScriptStringLiteralPart::SingleString(s) => s.value@,
            LogicScriptStringLiteralPart::Comment(_) => Seq::empty(),
        }
    }
}

impl LogicScriptStringLiteral {
    pub open spec fn text(&self) -> Seq<char> {
        parts_text(self.parts@)
    }

    pub fn value(&self) -> (r: String)
        ensures
            r@ == self.text(),
    {
        let mut r = String::new();
        let mut i: usize = 0;
        while i < self.parts.len()
            invariant
                0 <= i <= self.parts@.len(),
                r@ == parts_text(self.parts@.take(i as int)),
            decreases self.parts@.len() - i,
        {
            match &self.parts[i] {
                LogicScriptStringLiteralPart::SingleString(s) => {
                    r.append(s.value.as_str());
                },
                LogicScriptStringLiteralPart::Comment(_) => {},
            }
            proof {
                assert(self.parts@.take(i + 1).drop_last() =~= self.parts@.take(i as int));
            }
            i = i + 1;
        }
        proof {
            assert(self.parts@.take(self.parts@.len() as int) =~= self.parts@);
        }
        r
    }
}

#[derive(Debug, Clone, PartialEq, Eq)]
pub enum LogicScriptLiteralValue {
    Number(LogicNumberLiteral),
    String(LogicScriptStringLiteral),
}

impl LogicScriptLiteralValue {
    /// A string literal of one piece.
    pub fn from_string(value: String) -> (r: LogicScriptLiteralValue)
        ensures
            r matches LogicScriptLiteralValue::String(s) && s.parts@.len() == 1 && s.text() == value@,
    {
        let ghost v = value@;
        let mut parts: Vec<LogicScriptStringLiteralPart> = Vec::new();
        parts.push(LogicScriptStringLiteralPart::SingleString(LogicScriptSingleStringLiteral { value }));
        let r = LogicScriptLiteralValue::String(LogicScriptStringLiteral { parts });
        proof {
            let s = LogicScriptStringLiteral { parts };
            assert(parts@.drop_last() =~= Seq::<LogicScriptStringLiteralPart>::empty());
            assert(parts_text(parts@.drop_last()) == Seq::<char>::empty());
            assert(Seq::<char>::empty() + v =~= v);
            assert(parts_text(parts@) =~= v);
        }
        r
    }
}

#[derive(Debug, Clone, PartialEq, Eq)]
pub struct LogicScriptLiteral {
    pub value: LogicScriptLiteralValue,
}

impl LogicScriptLiteral {
    /// The literal as the assembly form has it: a number as it is, a string
    /// as its text.
    pub fn into_logic_literal(self) -> (r: LogicLiteral)
        ensures
            match self.value {
                LogicScriptLiteralValue::Number(n) => r.value == LogicLiteralValue::Number(n),
                LogicScriptLiteralValue::String(s) => r.value matches LogicLiteralValue::String(t) && t.value@
                    == s.text(),
            },
    {
        let value = match self.value {
            LogicScriptLiteralValue::Number(num) => LogicLiteralValue::Number(LogicNumberLiteral { value: num.value }),
            LogicScriptLiteralValue::String(string) => LogicLiteralValue::String(LogicStringLiteral { value: string.value() }),
        };
        LogicLiteral { value }
    }
}

/// A piece of a string literal as written.
pub enum StringPartView {
    Text(Seq<char>),
    Comment(Seq<char>),
}

pub open spec fn string_part_view(p: LogicScriptStringLiteralPart) -> StringPartView {
    match p {
        LogicScriptStringLiteralPart::SingleString(s) => StringPartView::Text(s.value@),
        LogicScriptStringLiteralPart::Comment(c) => StringPartView::Comment(c.comment@),
    }
}

pub open spec fn string_parts_view(v: Seq<LogicScriptStringLiteralPart>) -> Seq<StringPartView> {
    v.map_values(|p: LogicScriptStringLiteralPart| string_part_view(p))
}

/// A literal as written: a number, or the pieces of a string.
pub enum LiteralView {
    Number(int),
    String(Seq<StringPartView>),
}

pub open spec fn literal_view(l: LogicScriptLiteral) -> LiteralView {
    match l.value {
        LogicScriptLiteralValue::Number(n) => LiteralView::Number(n.value as int),
        LogicScriptLiteralValue::String(s) => LiteralView::String(string_parts_view(s.parts@)),
    }
}

} // verus!
