//! Writing a script back as text.

use vstd::prelude::*;
use vstd::string::StringExecFns;

use crate::logic::assembly::codegen::{
    argument_text, condition_text, int_string, int_text, joined_text, json_quoted, json_string,
    AsmCodeGenerationContext,
};
use crate::logic::assembly::LogicLabel;
use crate::logic::assembly::expressions::{condition_expression_view, ArgumentMeaning, ParsedLogicArgument};
use crate::logic::assembly::literals::LogicNumberLiteral;
use crate::logic::logic_script::codegen::errors::LogicScriptCodeGenerationError;
use crate::logic::logic_script::directives::{
    define_value_view, directive_view, DefineValueView, Directive, DirectiveView, LogicScriptDefineValue,
};
use crate::logic::logic_script::literals::{
    literal_view, parts_text, string_parts_view, LiteralView, LogicScriptLiteral, LogicScriptLiteralValue,
    LogicScriptStringLiteral, StringPartView,
};
use crate::logic::logic_script::operators::{LogicScriptArithmeticOperator, LogicScriptUnaryAssignmentOperator};
use crate::logic::logic_script::parsing::lexical::{chars_string, push_char, script_chars};
use crate::logic::logic_script::parsing::lexical::text_at;
use crate::logic::logic_script::parsing::statements::arithmetic_operator;
use crate::logic::logic_script::parsing::values::{lemma_parts_text, parts_text_of};
use crate::logic::logic_script::statements::{
    lemma_statements_view, statement_body_view, statement_view, statements_view,
    LogicScriptArithmeticAssignmentStatement, LogicScriptCommandCall, LogicScriptComment,
    LogicScriptLeftIndirectAssignmentStatement, LogicScriptRightIndirectAssignmentStatement, LogicScriptStatement,
    LogicScriptStatementBody, LogicScriptUnaryOperationStatement, LogicScriptValueAssignmentStatement,
    StatementBodyView, StatementView, StatementWithOrWithoutLocation,
};

verus! {

/// `n` spaces.
pub open spec fn spaces(n: nat) -> Seq<char> {
    Seq::new(n, |i: int| ' ')
}

/// Whether Rust counts `c` as white space (its `White_Space` property).
pub open spec fn is_unicode_white_space(c: char) -> bool {
    let u = c as u32;
    ||| 9 <= u <= 13
    ||| u == 32
    ||| u == 0x85
    ||| u == 0xa0
    ||| u == 0x1680
    ||| 0x2000 <= u <= 0x200a
    ||| u == 0x2028
    ||| u == 0x2029
    ||| u == 0x202f
    ||| u == 0x205f
    ||| u == 0x3000
}

/// The text without its trailing white space.
pub open spec fn trim_end(t: Seq<char>) -> Seq<char>
    decreases t.len(),
{
    if t.len() > 0 && is_unicode_white_space(t.last()) {
        trim_end(t.drop_last())
    } else {
        t
    }
}

/// The position of the first line break from `k` on.
pub open spec fn newline_from(t: Seq<char>, k: int) -> Option<int>
    decreases t.len() - k,
{
    if k < 0 || k >= t.len() {
        None
    } else if t[k] == '\n' {
        Some(k)
    } else {
        newline_from(t, k + 1)
    }
}

/// The pieces of a text between its line breaks: one more than there are breaks.
pub open spec fn split_lines(t: Seq<char>) -> Seq<Seq<char>>
    decreases t.len(),
{
    match newline_from(t, 0) {
        Some(i) => if 0 <= i < t.len() {
            seq![t.subrange(0, i)] + split_lines(t.subrange(i + 1, t.len() as int))
        } else {
            seq![t]
        },
        None => seq![t],
    }
}

/// The lines of a branch's text: its pieces after trailing white space is
/// cut, each ended by a line break, the first left out where it is empty.
pub open spec fn branch_lines(text: Seq<char>) -> Seq<Seq<char>> {
    let lines = split_lines(trim_end(text)).map_values(|l: Seq<char>| l.push('\n'));
    if lines.len() > 0 && lines[0] == seq!['\n'] {
        lines.subrange(1, lines.len() as int)
    } else {
        lines
    }
}

/// Lines one after another, each after `indent` spaces.
pub open spec fn indented(lines: Seq<Seq<char>>, indent: nat) -> Seq<char>
    decreases lines.len(),
{
    if lines.len() == 0 {
        Seq::empty()
    } else {
        indented(lines.drop_last(), indent) + spaces(indent) + lines.last()
    }
}

pub open spec fn literal_text(l: LiteralView) -> Seq<char> {
    match l {
        LiteralView::Number(n) => int_text(n),
        LiteralView::String(parts) => json_string(parts_text_of(parts)),
    }
}

pub open spec fn define_value_text(v: DefineValueView) -> Seq<char> {
    match v {
        DefineValueView::Literal(l) => literal_text(l),
        DefineValueView::Identifier(name) => name,
    }
}

pub open spec fn directive_text(d: DirectiveView) -> Seq<char> {
    match d {
        DirectiveView::Message { number, message } => "#message "@ + int_text(number) + " "@ + json_string(
            parts_text_of(message),
        ),
        DirectiveView::Include { filename } => "#include "@ + json_string(parts_text_of(filename)),
        DirectiveView::Define { identifier, value } => "#define "@ + identifier + " "@ + define_value_text(value),
    }
}

pub open spec fn arguments_text(args: Seq<ArgumentMeaning>) -> Seq<char> {
    joined_text(args.map_values(|a: ArgumentMeaning| argument_text(a)), ", "@)
}

pub open spec fn unary_operator_text(op: LogicScriptUnaryAssignmentOperator) -> Seq<char> {
    match op {
        LogicScriptUnaryAssignmentOperator::Increment => "++"@,
        LogicScriptUnaryAssignmentOperator::Decrement => "--"@,
    }
}

pub open spec fn arithmetic_operator_text(op: LogicScriptArithmeticOperator) -> Seq<char> {
    match op {
        LogicScriptArithmeticOperator::Add => "+"@,
        LogicScriptArithmeticOperator::Subtract => "-"@,
        LogicScriptArithmeticOperator::Multiply => "*"@,
        LogicScriptArithmeticOperator::Divide => "/"@,
    }
}

/// The one line of a statement that is no `if`.
pub open spec fn body_line(b: StatementBodyView) -> Seq<char> {
    match b {
        StatementBodyView::Comment(c) => "//"@ + c + "\n"@,
        StatementBodyView::Directive(_, d) => directive_text(d),
        StatementBodyView::CommandCall { name, args } => name + "("@ + arguments_text(args) + ");"@,
        StatementBodyView::UnaryOperation { operation, identifier } => identifier + unary_operator_text(operation)
            + ";"@,
        StatementBodyView::ValueAssignment { assignee, value } => assignee + " = "@ + argument_text(value) + ";"@,
        StatementBodyView::ArithmeticAssignment { operator, assignee, value } => assignee + " "@
            + arithmetic_operator_text(operator) + "= "@ + argument_text(value) + ";"@,
        StatementBodyView::LeftIndirectAssignment { assignee_pointer, value } => "*"@ + assignee_pointer + " = "@
            + argument_text(value) + ";"@,
        StatementBodyView::RightIndirectAssignment { assignee, value_pointer } => assignee + " = *"@ + value_pointer
            + ";"@,
        StatementBodyView::If { .. } => Seq::empty(),
    }
}

/// A blank line goes before an unlabeled `if` that follows a statement
/// other than a comment or a directive.
pub open spec fn blank_before(ss: Seq<StatementView>, i: int) -> Seq<char> {
    if ss[i].label is None && ss[i].body is If && i > 0 && !(ss[i - 1].body is Comment) && !(ss[i
        - 1].body is Directive) {
        seq!['\n']
    } else {
        Seq::empty()
    }
}

/// A statement's label line, if it has a label: after a line break, two
/// spaces less indented than the statement; an `if` after it comes after a
/// blank line.
pub open spec fn label_prefix(st: StatementView, indent: nat) -> Seq<char> {
    match st.label {
        Some(l) => seq!['\n'] + spaces(
            if indent >= 2 {
                (indent - 2) as nat
            } else {
                0
            },
        ) + l + seq![':'] + if st.body is If {
            seq!['\n', '\n']
        } else {
            seq!['\n']
        },
        None => Seq::empty(),
    }
}

/// A statement body as text at `indent`: one indented line, or for an `if`
/// its head, the lines of its branches (written two spaces in), and its
/// closing braces, each line indented.
pub open spec fn statement_body_text(b: StatementBodyView, indent: nat) -> Seq<char>
    decreases b,
{
    match b {
        StatementBodyView::If { conditions, then_statements, else_statements, .. } => {
            let then_lines = branch_lines(joined_text(statement_entries(then_statements, 2), seq!['\n']));
            let else_lines = branch_lines(joined_text(statement_entries(else_statements, 2), seq!['\n']));
            let head = seq!["if ("@ + condition_text(conditions) + ") {\n"@];
            let tail = if else_lines.len() == 0 {
                seq!["}"@]
            } else {
                seq!["} else {\n"@] + else_lines + seq!["}"@]
            };
            indented(head + then_lines + tail, indent)
        },
        _ => spaces(indent) + body_line(b),
    }
}

/// A statement as text at `indent`: its label line, then its body.
pub open spec fn statement_text(st: StatementView, indent: nat) -> Seq<char>
    decreases st,
{
    label_prefix(st, indent) + statement_body_text(st.body, indent)
}

/// The texts of statements at `indent`, each with the blank line it may need before it.
pub open spec fn statement_entries(ss: Seq<StatementView>, indent: nat) -> Seq<Seq<char>>
    decreases ss,
{
    if ss.len() == 0 {
        Seq::empty()
    } else {
        statement_entries(ss.subrange(0, ss.len() - 1), indent).push(
            blank_before(ss, ss.len() - 1) + statement_text(ss[ss.len() - 1], indent),
        )
    }
}

/// Statements as text at `indent`, one after another, a line break between each two.
pub open spec fn statements_text(ss: Seq<StatementView>, indent: nat) -> Seq<char> {
    joined_text(statement_entries(ss, indent), seq!['\n'])
}

pub open spec fn strings_view(v: Seq<String>) -> Seq<Seq<char>> {
    v.map_values(|s: String| s@)
}

fn spaces_string(n: usize) -> (r: String)
    ensures
        r@ == spaces(n as nat),
{
    let mut out = String::new();
    let mut k: usize = 0;
    while k < n
        invariant
            0 <= k <= n,
            out@ == spaces(k as nat),
        decreases n - k,
    {
        push_char(&mut out, ' ');
        k = k + 1;
        assert(out@ =~= spaces(k as nat));
    }
    out
}

fn is_unicode_white_space_char(c: char) -> (r: bool)
    ensures
        r == is_unicode_white_space(c),
{
    let u = c as u32;
    (9 <= u && u <= 13) || u == 32 || u == 0x85 || u == 0xa0 || u == 0x1680 || (0x2000 <= u && u <= 0x200a)
        || u == 0x2028 || u == 0x2029 || u == 0x202f || u == 0x205f || u == 0x3000
}

/// Where the text ends once its trailing white space is cut.
fn trim_end_len(t: &[char]) -> (k: usize)
    ensures
        k <= t@.len(),
        t@.subrange(0, k as int) == trim_end(t@),
{
    let mut k = t.len();
    assert(t@.subrange(0, k as int) =~= t@);
    while k > 0 && is_unicode_white_space_char(t[k - 1])
        invariant
            k <= t@.len(),
            trim_end(t@) == trim_end(t@.subrange(0, k as int)),
        decreases k,
    {
        assert(t@.subrange(0, k as int).drop_last() =~= t@.subrange(0, k - 1));
        k = k - 1;
    }
    k
}

proof fn lemma_newline_from_piece(piece: Seq<char>, rest: Seq<char>)
    requires
        forall|j: int| 0 <= j < piece.len() ==> piece[j] != '\n',
    ensures
        newline_from(piece + rest, 0) == (match newline_from(rest, 0) {
            Some(i) => Some(piece.len() + i),
            None => None::<int>,
        }),
{
    lemma_newline_shift(piece, rest, 0);
}

proof fn lemma_newline_shift(piece: Seq<char>, rest: Seq<char>, k: int)
    requires
        forall|j: int| 0 <= j < piece.len() ==> piece[j] != '\n',
        0 <= k <= piece.len(),
    ensures
        newline_from(piece + rest, k) == (match newline_from(rest, 0) {
            Some(i) => Some(piece.len() + i),
            None => None::<int>,
        }),
    decreases piece.len() + rest.len() - k,
{
    let t = piece + rest;
    if k < piece.len() {
        assert(t[k] == piece[k]);
        lemma_newline_shift(piece, rest, k + 1);
    } else {
        lemma_newline_rest(piece, rest, 0);
    }
}

proof fn lemma_newline_rest(piece: Seq<char>, rest: Seq<char>, k: int)
    requires
        0 <= k <= rest.len(),
    ensures
        newline_from(piece + rest, piece.len() + k) == (match newline_from(rest, k) {
            Some(i) => Some(piece.len() + i),
            None => None::<int>,
        }),
    decreases rest.len() - k,
{
    let t = piece + rest;
    if k < rest.len() {
        assert(t[piece.len() + k] == rest[k]);
        lemma_newline_rest(piece, rest, k + 1);
    }
}

/// The lines of a branch's text, as `branch_lines` says.
fn branch_lines_of(text: &String) -> (r: Vec<String>)
    ensures
        strings_view(r@) == branch_lines(text@),
{
    let chars = script_chars(text.as_str());
    let end = trim_end_len(chars.as_slice());
    let ghost t = chars@.subrange(0, end as int);
    let mut lines: Vec<String> = Vec::new();
    let mut piece = String::new();
    let mut k: usize = 0;
    assert(t.subrange(0, t.len() as int) =~= t);
    while k < end
        invariant
            0 <= k <= end <= chars@.len(),
            t == chars@.subrange(0, end as int),
            forall|j: int| 0 <= j < piece@.len() ==> piece@[j] != '\n',
            split_lines(t).map_values(|l: Seq<char>| l.push('\n')) == strings_view(lines@) + split_lines(
                piece@ + t.subrange(k as int, t.len() as int),
            ).map_values(|l: Seq<char>| l.push('\n')),
        decreases end - k,
    {
        let c = chars[k];
        let ghost rest = t.subrange(k + 1, t.len() as int);
        assert(t.subrange(k as int, t.len() as int) =~= seq![c] + rest);
        if c == '\n' {
            proof {
                let whole = piece@ + t.subrange(k as int, t.len() as int);
                assert(whole =~= piece@ + (seq![c] + rest));
                lemma_newline_from_piece(piece@, seq![c] + rest);
                assert(newline_from(seq![c] + rest, 0) == Some(0int));
                assert(whole.subrange(0, piece@.len() as int) =~= piece@);
                assert(whole.subrange(piece@.len() + 1 as int, whole.len() as int) =~= rest);
                assert(split_lines(whole) == seq![piece@] + split_lines(rest));
                let f = |l: Seq<char>| l.push('\n');
                assert((seq![piece@] + split_lines(rest)).map_values(f) =~= seq![piece@.push('\n')] + split_lines(
                    rest,
                ).map_values(f));
            }
            let mut line = piece;
            push_char(&mut line, '\n');
            let ghost before = strings_view(lines@);
            let ghost lv = line@;
            lines.push(line);
            assert(strings_view(lines@) =~= before.push(lv));
            piece = String::new();
            proof {
                assert(Seq::<char>::empty() + rest =~= rest);
                let f = |l: Seq<char>| l.push('\n');
                assert(before.push(lv) + split_lines(rest).map_values(f) =~= before + (seq![lv] + split_lines(
                    rest,
                ).map_values(f)));
            }
        } else {
            proof {
                assert(piece@ + t.subrange(k as int, t.len() as int) =~= piece@.push(c) + rest);
            }
            push_char(&mut piece, c);
        }
        k = k + 1;
    }
    proof {
        let p = piece@;
        assert(p + t.subrange(end as int, t.len() as int) =~= p);
        lemma_newline_from_piece(p, Seq::empty());
        assert(p + Seq::<char>::empty() =~= p);
        assert(split_lines(p) == seq![p]);
        let f = |l: Seq<char>| l.push('\n');
        assert(seq![p].map_values(f) =~= seq![p.push('\n')]);
    }
    let ghost before = strings_view(lines@);
    let mut last = piece;
    push_char(&mut last, '\n');
    let ghost lv = last@;
    lines.push(last);
    assert(strings_view(lines@) =~= before.push(lv));
    assert(before + seq![lv] =~= before.push(lv));
    let ghost all = strings_view(lines@);
    assert(all == split_lines(trim_end(text@)).map_values(|l: Seq<char>| l.push('\n')));
    if lines[0].as_str().unicode_len() == 1 {
        proof {
            assert(all[0] == lines@[0]@);
            assert(all[0].len() == 1);
            assert(all[0].last() == '\n') by {
                lemma_lines_end_with_newline(split_lines(trim_end(text@)), 0);
            }
            assert(all[0] =~= seq!['\n']);
        }
        lines.remove(0);
        assert(strings_view(lines@) =~= all.subrange(1, all.len() as int));
    } else {
        proof {
            assert(all[0] == lines@[0]@);
            assert(all[0] != seq!['\n']);
        }
    }
    lines
}

proof fn lemma_lines_end_with_newline(ls: Seq<Seq<char>>, i: int)
    requires
        0 <= i < ls.len(),
    ensures
        ls.map_values(|l: Seq<char>| l.push('\n'))[i].last() == '\n',
{
}

/// Lines one after another, each after `indent` spaces.
fn indented_lines(lines: &Vec<String>, indent: usize) -> (r: String)
    ensures
        r@ == indented(strings_view(lines@), indent as nat),
{
    let pad = spaces_string(indent);
    let mut out = String::new();
    let mut i: usize = 0;
    assert(strings_view(lines@).take(0) =~= Seq::<Seq<char>>::empty());
    while i < lines.len()
        invariant
            0 <= i <= lines@.len(),
            pad@ == spaces(indent as nat),
            out@ == indented(strings_view(lines@).take(i as int), indent as nat),
        decreases lines@.len() - i,
    {
        out.append(pad.as_str());
        out.append(lines[i].as_str());
        proof {
            let ls = strings_view(lines@);
            assert(ls.take(i + 1).drop_last() =~= ls.take(i as int));
            assert(ls.take(i + 1).last() == lines@[i as int]@);
        }
        i = i + 1;
    }
    assert(strings_view(lines@).take(lines@.len() as int) =~= strings_view(lines@));
    out
}

impl LogicNumberLiteral {
    pub fn generate_logic_script(&self, context: &AsmCodeGenerationContext) -> (r: Result<
        String,
        LogicScriptCodeGenerationError,
    >)
        ensures
            r matches Ok(t) && t@ == int_text(self.value as int),
    {
        Ok(int_string(self.value))
    }
}

impl LogicScriptStringLiteral {
    pub fn generate_logic_script(&self, context: &AsmCodeGenerationContext) -> (r: Result<
        String,
        LogicScriptCodeGenerationError,
    >)
        ensures
            r matches Ok(t) && t@ == json_string(parts_text_of(string_parts_view(self.parts@))),
    {
        proof {
            lemma_parts_text(self.parts@);
        }
        let value = self.value();
        match json_quoted(value.as_str()) {
            Ok(t) => Ok(t),
            Err(e) => Err(LogicScriptCodeGenerationError::SerdeJsonError(e)),
        }
    }
}

impl LogicScriptLiteral {
    pub fn generate_logic_script(&self, context: &AsmCodeGenerationContext) -> (r: Result<
        String,
        LogicScriptCodeGenerationError,
    >)
        ensures
            r matches Ok(t) && t@ == literal_text(literal_view(*self)),
    {
        match &self.value {
            LogicScriptLiteralValue::Number(num) => num.generate_logic_script(context),
            LogicScriptLiteralValue::String(string) => string.generate_logic_script(context),
        }
    }
}

impl LogicScriptComment {
    pub fn generate_logic_script(&self, context: &AsmCodeGenerationContext) -> (r: Result<
        String,
        LogicScriptCodeGenerationError,
    >)
        ensures
            r matches Ok(t) && t@ == "//"@ + self.comment@ + "\n"@,
    {
        let mut t = String::from_str("//");
        t.append(self.comment.as_str());
        t.append("\n");
        Ok(t)
    }
}

impl LogicScriptDefineValue {
    pub fn generate_logic_script(&self, context: &AsmCodeGenerationContext) -> (r: Result<
        String,
        LogicScriptCodeGenerationError,
    >)
        ensures
            r matches Ok(t) && t@ == define_value_text(define_value_view(*self)),
    {
        match self {
            LogicScriptDefineValue::Literal(literal) => literal.generate_logic_script(context),
            LogicScriptDefineValue::Identifier(identifier) => Ok(identifier.name.clone()),
        }
    }
}

impl Directive {
    pub fn generate_logic_script(&self, context: &AsmCodeGenerationContext) -> (r: Result<
        String,
        LogicScriptCodeGenerationError,
    >)
        ensures
            r matches Ok(t) && t@ == directive_text(directive_view(*self)),
    {
        match self {
            Directive::Message { number, message } => {
                let mut t = String::from_str("#message ");
                let n = int_string(number.value);
                t.append(n.as_str());
                t.append(" ");
                let m = message.generate_logic_script(context)?;
                t.append(m.as_str());
                Ok(t)
            },
            Directive::Include { filename } => {
                let mut t = String::from_str("#include ");
                let f = filename.generate_logic_script(context)?;
                t.append(f.as_str());
                Ok(t)
            },
            Directive::Define { identifier, value } => {
                let mut t = String::from_str("#define ");
                t.append(identifier.name.as_str());
                t.append(" ");
                let v = value.generate_logic_script(context)?;
                t.append(v.as_str());
                Ok(t)
            },
        }
    }
}

/// Arguments as text, separated by `, `.
pub fn arguments_script(arguments: &Vec<ParsedLogicArgument>, context: &AsmCodeGenerationContext) -> (r: Result<
    String,
    LogicScriptCodeGenerationError,
>)
    ensures
        r matches Ok(t) && t@ == arguments_text(arguments@.map_values(|a: ParsedLogicArgument| a@)),
{
    let ghost args = arguments@.map_values(|a: ParsedLogicArgument| a@);
    let ghost parts = args.map_values(|a: ArgumentMeaning| argument_text(a));
    let no_labels: Vec<LogicLabel> = Vec::new();
    let mut text = String::new();
    let mut i: usize = 0;
    assert(parts.take(0) =~= Seq::<Seq<char>>::empty());
    while i < arguments.len()
        invariant
            0 <= i <= arguments@.len(),
            args == arguments@.map_values(|a: ParsedLogicArgument| a@),
            parts == args.map_values(|a: ArgumentMeaning| argument_text(a)),
            text@ == joined_text(parts.take(i as int), ", "@),
        decreases arguments@.len() - i,
    {
        let piece = match arguments[i].generate_asm(context, no_labels.as_slice()) {
            Ok(p) => p,
            Err(e) => {
                return Err(LogicScriptCodeGenerationError::AsmCodeGenerationError(e));
            },
        };
        proof {
            assert(parts.take(i + 1).drop_last() =~= parts.take(i as int));
            assert(parts[i as int] == piece@);
        }
        if i > 0 {
            text.append(", ");
        } else {
            assert(parts.take(1) =~= seq![piece@]);
            assert(text@ =~= Seq::<char>::empty());
        }
        text.append(piece.as_str());
        proof {
            if i == 0 {
                assert(text@ =~= piece@);
            }
        }
        i = i + 1;
    }
    assert(parts.take(arguments@.len() as int) =~= parts);
    Ok(text)
}

/// The text written for `++` or `--` is two characters, which the parser of
/// a unary statement, whatever follows, reads as an increment exactly when
/// the operator is one, and as a decrement exactly when it is one.
pub proof fn lemma_unary_operator_text_reads_back(op: LogicScriptUnaryAssignmentOperator, rest: Seq<char>)
    ensures
        unary_operator_text(op).len() == 2,
        text_at(unary_operator_text(op) + rest, 0, seq!['+', '+']) == (op == LogicScriptUnaryAssignmentOperator::Increment),
        text_at(unary_operator_text(op) + rest, 0, seq!['-', '-']) == (op == LogicScriptUnaryAssignmentOperator::Decrement),
{
    reveal_strlit("++");
    reveal_strlit("--");
    let t = unary_operator_text(op) + rest;
    assert(t.subrange(0, 2) =~= unary_operator_text(op));
    if op == LogicScriptUnaryAssignmentOperator::Increment {
        assert(t.subrange(0, 2) =~= seq!['+', '+']);
        assert(t.subrange(0, 2)[0] != seq!['-', '-'][0]);
    } else {
        assert(t.subrange(0, 2) =~= seq!['-', '-']);
        assert(t.subrange(0, 2)[0] != seq!['+', '+'][0]);
    }
}

impl LogicScriptUnaryAssignmentOperator {
    pub fn generate_logic_script(&self) -> (r: String)
        ensures
            r@ == unary_operator_text(*self),
            forall|rest: Seq<char>| #![trigger r@ + rest] text_at(r@ + rest, 0, seq!['+', '+']) == (*self
                == LogicScriptUnaryAssignmentOperator::Increment),
            forall|rest: Seq<char>| #![trigger r@ + rest] text_at(r@ + rest, 0, seq!['-', '-']) == (*self
                == LogicScriptUnaryAssignmentOperator::Decrement),
    {
        proof {
            assert forall|rest: Seq<char>| #![trigger unary_operator_text(*self) + rest] text_at(unary_operator_text(*self) + rest, 0, seq!['+', '+']) == (*self
                == LogicScriptUnaryAssignmentOperator::Increment) by {
                lemma_unary_operator_text_reads_back(*self, rest);
            }
            assert forall|rest: Seq<char>| #![trigger unary_operator_text(*self) + rest] text_at(unary_operator_text(*self) + rest, 0, seq!['-', '-']) == (*self
                == LogicScriptUnaryAssignmentOperator::Decrement) by {
                lemma_unary_operator_text_reads_back(*self, rest);
            }
        }
        match self {
            LogicScriptUnaryAssignmentOperator::Increment => String::from_str("++"),
            LogicScriptUnaryAssignmentOperator::Decrement => String::from_str("--"),
        }
    }
}

/// The text written for an arithmetic operator is one character, and the
/// parser reads it, whatever follows, as that same operator.
pub proof fn lemma_arithmetic_operator_text_reads_back(op: LogicScriptArithmeticOperator, rest: Seq<char>)
    ensures
        arithmetic_operator_text(op).len() == 1,
        arithmetic_operator(arithmetic_operator_text(op) + rest, 0) == Some((op, 1int)),
{
    reveal_strlit("+");
    reveal_strlit("-");
    reveal_strlit("*");
    reveal_strlit("/");
    let t = arithmetic_operator_text(op) + rest;
    assert(t[0] == arithmetic_operator_text(op)[0]);
}

impl LogicScriptArithmeticOperator {
    pub fn generate_logic_script(&self) -> (r: String)
        ensures
            r@ == arithmetic_operator_text(*self),
            forall|rest: Seq<char>| #[trigger] arithmetic_operator(r@ + rest, 0) == Some((*self, 1int)),
    {
        proof {
            assert forall|rest: Seq<char>| #[trigger] arithmetic_operator(arithmetic_operator_text(*self) + rest, 0) == Some(
                (*self, 1int),
            ) by {
                lemma_arithmetic_operator_text_reads_back(*self, rest);
            }
        }
        match self {
            LogicScriptArithmeticOperator::Add => String::from_str("+"),
            LogicScriptArithmeticOperator::Subtract => String::from_str("-"),
            LogicScriptArithmeticOperator::Multiply => String::from_str("*"),
            LogicScriptArithmeticOperator::Divide => String::from_str("/"),
        }
    }
}

fn argument_script(argument: &ParsedLogicArgument, context: &AsmCodeGenerationContext) -> (r: Result<
    String,
    LogicScriptCodeGenerationError,
>)
    ensures
        r matches Ok(t) && t@ == argument_text(argument@),
{
    let no_labels: Vec<LogicLabel> = Vec::new();
    match argument.generate_asm(context, no_labels.as_slice()) {
        Ok(t) => Ok(t),
        Err(e) => Err(LogicScriptCodeGenerationError::AsmCodeGenerationError(e)),
    }
}

/// The one line of a statement body that is no `if`.
fn body_line_script(body: &LogicScriptStatementBody<ParsedLogicArgument>, context: &AsmCodeGenerationContext) -> (r:
    Result<String, LogicScriptCodeGenerationError>)
    requires
        !(body is IfStatement),
    ensures
        r matches Ok(t) && t@ == body_line(statement_body_view(*body)),
{
    match body {
        LogicScriptStatementBody::Comment(comment) => comment.generate_logic_script(context),
        LogicScriptStatementBody::Directive(directive) => directive.directive.generate_logic_script(context),
        LogicScriptStatementBody::CommandCall(call) => {
            let mut t = call.command_name.clone();
            t.append("(");
            let args = arguments_script(&call.argument_list, context)?;
            t.append(args.as_str());
            t.append(");");
            Ok(t)
        },
        LogicScriptStatementBody::UnaryOperation(u) => {
            let mut t = u.identifier.name.clone();
            let op = u.operation.generate_logic_script();
            t.append(op.as_str());
            t.append(";");
            Ok(t)
        },
        LogicScriptStatementBody::ValueAssignment(v) => {
            let mut t = v.assignee.name.clone();
            t.append(" = ");
            let value = argument_script(&v.value, context)?;
            t.append(value.as_str());
            t.append(";");
            Ok(t)
        },
        LogicScriptStatementBody::ArithmeticAssignment(a) => {
            let mut t = a.assignee.name.clone();
            t.append(" ");
            let op = a.operator.generate_logic_script();
            t.append(op.as_str());
            t.append("= ");
            let value = argument_script(&a.value, context)?;
            t.append(value.as_str());
            t.append(";");
            Ok(t)
        },
        LogicScriptStatementBody::LeftIndirectAssignment(l) => {
            let mut t = String::from_str("*");
            t.append(l.assignee_pointer.name.as_str());
            t.append(" = ");
            let value = argument_script(&l.value, context)?;
            t.append(value.as_str());
            t.append(";");
            Ok(t)
        },
        LogicScriptStatementBody::RightIndirectAssignment(r) => {
            let mut t = r.assignee.name.clone();
            t.append(" = *");
            t.append(r.value_pointer.name.as_str());
            t.append(";");
            Ok(t)
        },
        LogicScriptStatementBody::IfStatement(_) => Ok(String::new()),
    }
}

proof fn lemma_entries_step(ss: Seq<StatementView>, i: int, indent: nat)
    requires
        0 <= i < ss.len(),
    ensures
        statement_entries(ss.subrange(0, i + 1), indent) == statement_entries(ss.subrange(0, i), indent).push(
            blank_before(ss, i) + statement_text(ss[i], indent),
        ),
{
    let prefix = ss.subrange(0, i + 1);
    assert(prefix.subrange(0, i) =~= ss.subrange(0, i));
    assert(prefix[i] == ss[i]);
    if i > 0 {
        assert(prefix[i - 1] == ss[i - 1]);
    }
    assert(blank_before(prefix, i) == blank_before(ss, i));
}

proof fn lemma_entries_len(ss: Seq<StatementView>, indent: nat)
    ensures
        statement_entries(ss, indent).len() == ss.len(),
    decreases ss.len(),
{
    if ss.len() > 0 {
        lemma_entries_len(ss.subrange(0, ss.len() - 1), indent);
    }
}

/// The text of a statement body at `indent`.
pub fn statement_body_script(
    body: &LogicScriptStatementBody<ParsedLogicArgument>,
    context: &AsmCodeGenerationContext,
    indent: usize,
) -> (r: Result<String, LogicScriptCodeGenerationError>)
    ensures
        r matches Ok(t) && t@ == statement_body_text(statement_body_view(*body), indent as nat),
    decreases body,
{
    match body {
        LogicScriptStatementBody::IfStatement(if_statement) => {
            let no_labels: Vec<LogicLabel> = Vec::new();
            let conditions = match if_statement.conditions.generate_asm(context, no_labels.as_slice()) {
                Ok(c) => c,
                Err(e) => {
                    return Err(LogicScriptCodeGenerationError::AsmCodeGenerationError(e));
                },
            };
            let then_text = statements_script(&if_statement.then_statements, context, 2)?;
            let mut then_lines = branch_lines_of(&then_text);
            let else_text = statements_script(&if_statement.else_statements, context, 2)?;
            let mut else_lines = branch_lines_of(&else_text);
            let mut head = String::from_str("if (");
            head.append(conditions.as_str());
            head.append(") {\n");
            let ghost then_v = strings_view(then_lines@);
            let ghost else_v = strings_view(else_lines@);
            let ghost head_v = head@;
            let mut lines: Vec<String> = Vec::new();
            lines.push(head);
            lines.append(&mut then_lines);
            assert(strings_view(lines@) =~= seq![head_v] + then_v);
            if else_lines.len() == 0 {
                let close = String::from_str("}");
                let ghost close_v = close@;
                lines.push(close);
                assert(strings_view(lines@) =~= seq![head_v] + then_v + seq![close_v]);
            } else {
                let middle = String::from_str("} else {\n");
                let ghost middle_v = middle@;
                lines.push(middle);
                let ghost before = strings_view(lines@);
                lines.append(&mut else_lines);
                let close = String::from_str("}");
                let ghost close_v = close@;
                lines.push(close);
                assert(strings_view(lines@) =~= seq![head_v] + then_v + (seq![middle_v] + else_v + seq![close_v]));
            }
            Ok(indented_lines(&lines, indent))
        },
        _ => {
            let mut t = spaces_string(indent);
            let line = body_line_script(body, context)?;
            t.append(line.as_str());
            Ok(t)
        },
    }
}

/// The text of a statement at `indent`: its label line, then its body.
pub fn statement_script(
    statement: &LogicScriptStatement<ParsedLogicArgument>,
    context: &AsmCodeGenerationContext,
    indent: usize,
) -> (r: Result<String, LogicScriptCodeGenerationError>)
    ensures
        r matches Ok(t) && t@ == statement_text(statement_view(*statement), indent as nat),
    decreases statement,
{
    let mut t = String::new();
    match &statement.label {
        Some(label) => {
            push_char(&mut t, '\n');
            let pad = spaces_string(if indent >= 2 { indent - 2 } else { 0 });
            t.append(pad.as_str());
            t.append(label.as_str());
            push_char(&mut t, ':');
            push_char(&mut t, '\n');
            match &statement.body {
                LogicScriptStatementBody::IfStatement(_) => push_char(&mut t, '\n'),
                _ => {},
            }
        },
        None => {},
    }
    let ghost prefix = t@;
    assert(prefix =~= label_prefix(statement_view(*statement), indent as nat));
    let body = statement_body_script(&statement.body, context, indent)?;
    t.append(body.as_str());
    Ok(t)
}

/// Statements as text at `indent`, a line break between each two, and a
/// blank line before an unlabeled `if` that follows neither a comment nor a
/// directive.
pub fn statements_script(
    statements: &Vec<StatementWithOrWithoutLocation<ParsedLogicArgument>>,
    context: &AsmCodeGenerationContext,
    indent: usize,
) -> (r: Result<String, LogicScriptCodeGenerationError>)
    ensures
        r matches Ok(t) && t@ == statements_text(statements_view(statements@), indent as nat),
    decreases statements@,
{
    let ghost ss = statements_view(statements@);
    proof {
        lemma_statements_view(statements@);
    }
    let mut text = String::new();
    let mut i: usize = 0;
    assert(ss.subrange(0, 0) =~= Seq::<StatementView>::empty());
    while i < statements.len()
        invariant
            0 <= i <= statements@.len(),
            ss == statements_view(statements@),
            ss.len() == statements@.len(),
            forall|j: int| 0 <= j < statements@.len() ==> #[trigger] ss[j] == statement_view(statements@[j].spec_statement()),
            text@ == joined_text(statement_entries(ss.subrange(0, i as int), indent as nat), seq!['\n']),
        decreases statements@.len() - i,
    {
        let current = statements[i].statement();
        let mut entry = String::new();
        let current_is_if = match &current.body {
            LogicScriptStatementBody::IfStatement(_) => true,
            _ => false,
        };
        if current.label.is_none() && current_is_if && i > 0 {
            let previous = statements[i - 1].statement();
            let plain = match &previous.body {
                LogicScriptStatementBody::Comment(_) => false,
                LogicScriptStatementBody::Directive(_) => false,
                _ => true,
            };
            if plain {
                push_char(&mut entry, '\n');
            }
        }
        proof {
            assert(ss[i as int] == statement_view(*current));
            if i > 0 {
                assert(ss[i - 1] == statement_view(statements@[i - 1].spec_statement()));
            }
            assert(entry@ =~= blank_before(ss, i as int));
            assert(decreases_to!(statements@ => statements@[i as int]));
        }
        let st = statement_script(current, context, indent)?;
        entry.append(st.as_str());
        proof {
            lemma_entries_step(ss, i as int, indent as nat);
            lemma_entries_len(ss.subrange(0, i + 1), indent as nat);
            let es = statement_entries(ss.subrange(0, i + 1), indent as nat);
            assert(es.drop_last() =~= statement_entries(ss.subrange(0, i as int), indent as nat));
        }
        if i > 0 {
            push_char(&mut text, '\n');
        }
        text.append(entry.as_str());
        proof {
            let es = statement_entries(ss.subrange(0, i + 1), indent as nat);
            if i == 0 {
                assert(text@ =~= es[0]);
            } else {
                assert(text@ =~= joined_text(es.drop_last(), seq!['\n']) + seq!['\n'] + es.last());
            }
        }
        i = i + 1;
    }
    assert(ss.subrange(0, ss.len() as int) =~= ss);
    Ok(text)
}

} // verus!
