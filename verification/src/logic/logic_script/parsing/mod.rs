//! The grammar of logic scripts, read by recursive descent. Each rule is
//! stated as a spec function over the script's characters and a position:
//! what it matches, where the match ends, or that reading panics there. The
//! readers follow those statements exactly.

pub mod lexical;
pub mod values;
pub mod conditions;
pub mod statements;
pub mod logic_script_parser;
