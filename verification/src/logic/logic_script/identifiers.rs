use vstd::prelude::*;
use vstd::string::StringExecFns;
use std::num::TryFromIntError;

use crate::formatting::{decimal_digits, digit_char, prefixed_number};
use crate::logic::assembly::expressions::ArgumentMeaning;
use crate::logic::commands::AGICommandArgType;
use crate::logic::logic_script::expressions::script_argument_meaning;
use crate::logic::logic_script::directives::LogicScriptDefineValue;
use crate::logic::logic_script::literals::LogicScriptLiteralValue;

verus! {

#[derive(Debug, Clone)]
pub enum IdentifierMapping {
    Variable { name: String, number: u16, variable_type: AGICommandArgType },
    ConstantString { name: String, value: String },
    ConstantNumber { name: String, value: u8 },
}

/// What a name stands for.
pub enum IdentifierMappingView {
    Variable { name: Seq<char>, number: u16, variable_type: AGICommandArgType },
    ConstantString { name: Seq<char>, value: Seq<char> },
    ConstantNumber { name: Seq<char>, value: u8 },
}

impl View for IdentifierMapping {
    type V = IdentifierMappingView;

    open spec fn view(&self) -> IdentifierMappingView {
        match self {
            IdentifierMapping::Variable { name, number, variable_type } => IdentifierMappingView::Variable {
                name: name@,
                number: *number,
                variable_type: *variable_type,
            },
            IdentifierMapping::ConstantString { name, value } => IdentifierMappingView::ConstantString {
                name: name@,
                value: value@,
            },
            IdentifierMapping::ConstantNumber { name, value } => IdentifierMappingView::ConstantNumber {
                name: name@,
                value: *value,
            },
        }
    }
}

/// The name a mapping carries.
pub open spec fn mapping_name(m: IdentifierMappingView) -> Seq<char> {
    match m {
        IdentifierMappingView::Variable { name, .. } => name,
        IdentifierMappingView::ConstantString { name, .. } => name,
        IdentifierMappingView::ConstantNumber { name, .. } => name,
    }
}

/// The prefix and type of the `k`th built-in name of each number, in the
/// order they are listed: v, f, o, c, i, s, m, w.
pub open spec fn builtin_kind(k: int) -> (char, AGICommandArgType) {
    if k == 0 {
        ('v', AGICommandArgType::Variable)
    } else if k == 1 {
        ('f', AGICommandArgType::Flag)
    } else if k == 2 {
        ('o', AGICommandArgType::Object)
    } else if k == 3 {
        ('c', AGICommandArgType::CtrlCode)
    } else if k == 4 {
        ('i', AGICommandArgType::Item)
    } else if k == 5 {
        ('s', AGICommandArgType::String)
    } else if k == 6 {
        ('m', AGICommandArgType::Message)
    } else {
        ('w', AGICommandArgType::Word)
    }
}

/// The built-in name at position `p` of the list: number `p / 8`, kind `p % 8`.
pub open spec fn builtin_at(p: int) -> IdentifierMappingView {
    let (prefix, t) = builtin_kind(p % 8);
    IdentifierMappingView::Variable {
        name: seq![prefix] + decimal_digits((p / 8) as nat),
        number: (p / 8) as u16,
        variable_type: t,
    }
}

fn builtin_kind_exec(k: u16) -> (r: (&'static str, AGICommandArgType))
    requires
        k < 8,
    ensures
        r.0@ == seq![builtin_kind(k as int).0],
        r.1 == builtin_kind(k as int).1,
{
    proof {
        reveal_strlit("v");
        reveal_strlit("f");
        reveal_strlit("o");
        reveal_strlit("c");
        reveal_strlit("i");
        reveal_strlit("s");
        reveal_strlit("m");
        reveal_strlit("w");
    }
    if k == 0 {
        assert("v"@ =~= seq!['v']);
        ("v", AGICommandArgType::Variable)
    } else if k == 1 {
        assert("f"@ =~= seq!['f']);
        ("f", AGICommandArgType::Flag)
    } else if k == 2 {
        assert("o"@ =~= seq!['o']);
        ("o", AGICommandArgType::Object)
    } else if k == 3 {
        assert("c"@ =~= seq!['c']);
        ("c", AGICommandArgType::CtrlCode)
    } else if k == 4 {
        assert("i"@ =~= seq!['i']);
        ("i", AGICommandArgType::Item)
    } else if k == 5 {
        assert("s"@ =~= seq!['s']);
        ("s", AGICommandArgType::String)
    } else if k == 6 {
        assert("m"@ =~= seq!['m']);
        ("m", AGICommandArgType::Message)
    } else {
        assert("w"@ =~= seq!['w']);
        ("w", AGICommandArgType::Word)
    }
}

impl IdentifierMapping {
    /// The names every script knows: for each number 0 to 255, a variable,
    /// flag, object, control code, item, string, message and word name.
    pub fn builtins() -> (r: Vec<IdentifierMapping>)
        ensures
            r@.len() == 2048,
            forall|p: int| 0 <= p < 2048 ==> #[trigger] r@[p]@ == builtin_at(p),
    {
        let mut r: Vec<IdentifierMapping> = Vec::new();
        let mut index: u16 = 0;
        while index < 256
            invariant
                index <= 256,
                r@.len() == 8 * index,
                forall|p: int| 0 <= p < r@.len() ==> #[trigger] r@[p]@ == builtin_at(p),
            decreases 256 - index,
        {
            let mut k: u16 = 0;
            while k < 8
                invariant
                    index < 256,
                    k <= 8,
                    r@.len() == 8 * index + k,
                    forall|p: int| 0 <= p < r@.len() ==> #[trigger] r@[p]@ == builtin_at(p),
                decreases 8 - k,
            {
                let (prefix, variable_type) = builtin_kind_exec(k);
                let name = prefixed_number(prefix, index as u32);
                let ghost p = r@.len() as int;
                r.push(IdentifierMapping::Variable { name, number: index, variable_type });
                proof {
                    assert(p / 8 == index as int && p % 8 == k as int) by (nonlinear_arith)
                        requires
                            p == 8 * index + k,
                            0 <= k < 8,
                    ;
                }
                k = k + 1;
            }
            index = index + 1;
        }
        r
    }

    pub fn name(&self) -> (r: &str)
        ensures
            r@ == mapping_name(self@),
    {
        match self {
            IdentifierMapping::Variable { name, .. } => name.as_str(),
            IdentifierMapping::ConstantString { name, .. } => name.as_str(),
            IdentifierMapping::ConstantNumber { name, .. } => name.as_str(),
        }
    }

    /// A copy that says the same.
    pub fn duplicate(&self) -> (r: IdentifierMapping)
        ensures
            r@ == self@,
    {
        match self {
            IdentifierMapping::Variable { name, number, variable_type } => IdentifierMapping::Variable {
                name: name.clone(),
                number: *number,
                variable_type: *variable_type,
            },
            IdentifierMapping::ConstantString { name, value } => IdentifierMapping::ConstantString {
                name: name.clone(),
                value: value.clone(),
            },
            IdentifierMapping::ConstantNumber { name, value } => IdentifierMapping::ConstantNumber {
                name: name.clone(),
                value: *value,
            },
        }
    }
}

#[derive(Debug)]
pub enum DefineError {
    TryFromIntError(TryFromIntError),
    UnknownIdentifier { name: String },
    IdentifierAlreadyDefined { name: String },
}

impl DefineError {
    /// The error as it is reported: the conversion error's own text, or the
    /// name that is unknown or already defined.
    pub fn to_string(&self) -> (r: String)
        ensures
            self matches DefineError::UnknownIdentifier { name } ==> r@ == "Unknown identifier: "@ + name@,
            self matches DefineError::IdentifierAlreadyDefined { name } ==> r@ == "Identifier "@ + name@
                + " already defined"@,
    {
        proof {
            reveal_strlit("Unknown identifier: ");
            reveal_strlit("Identifier ");
            reveal_strlit(" already defined");
        }
        match self {
            DefineError::TryFromIntError(e) => e.to_string(),
            DefineError::UnknownIdentifier { name } => {
                let mut s = String::from_str("Unknown identifier: ");
                s.append(name.as_str());
                s
            },
            DefineError::IdentifierAlreadyDefined { name } => {
                let mut s = String::from_str("Identifier ");
                s.append(name.as_str());
                s.append(" already defined");
                s
            },
        }
    }
}

/// Names and what they stand for. Each name is held once.
#[derive(Debug, Clone)]
pub struct IdentifierMap {
    entries: Vec<(String, IdentifierMapping)>,
}

/// The map that entries give, a later entry for a name replacing an earlier one.
pub open spec fn entries_map(entries: Seq<(Seq<char>, IdentifierMappingView)>) -> Map<Seq<char>, IdentifierMappingView>
    decreases entries.len(),
{
    if entries.len() == 0 {
        Map::empty()
    } else {
        entries_map(entries.drop_last()).insert(entries.last().0, entries.last().1)
    }
}

/// The map that identifiers give, each under its own name, a later one for
/// a name replacing an earlier one.
pub open spec fn identifiers_map(ids: Seq<IdentifierMappingView>) -> Map<Seq<char>, IdentifierMappingView> {
    entries_map(ids.map_values(|m: IdentifierMappingView| (mapping_name(m), m)))
}

impl View for IdentifierMap {
    type V = Map<Seq<char>, IdentifierMappingView>;

    closed spec fn view(&self) -> Map<Seq<char>, IdentifierMappingView> {
        Map::new(
            |k: Seq<char>| exists|i: int| 0 <= i < self.entries@.len() && #[trigger] self.entries@[i].0@ == k,
            |k: Seq<char>| {
                let i = choose|i: int| 0 <= i < self.entries@.len() && #[trigger] self.entries@[i].0@ == k;
                self.entries@[i].1@
            },
        )
    }
}

impl IdentifierMap {
    /// No name is held twice.
    pub closed spec fn wf(&self) -> bool {
        forall|i: int, j: int|
            0 <= i < self.entries@.len() && 0 <= j < self.entries@.len() && i != j ==> #[trigger] self.entries@[i].0@
                != #[trigger] self.entries@[j].0@
    }

    /// The entry at `i` is what its name maps to.
    proof fn lemma_entry(&self, i: int)
        requires
            self.wf(),
            0 <= i < self.entries@.len(),
        ensures
            self@.contains_key(self.entries@[i].0@),
            self@[self.entries@[i].0@] == self.entries@[i].1@,
    {
        let k = self.entries@[i].0@;
        assert(self@.contains_key(k));
        let j = choose|j: int| 0 <= j < self.entries@.len() && #[trigger] self.entries@[j].0@ == k;
        assert(j == i);
    }

    /// Where `name` is held, if it is.
    fn find(&self, name: &String) -> (r: Option<usize>)
        requires
            self.wf(),
        ensures
            match r {
                Some(i) => i < self.entries@.len() && self.entries@[i as int].0@ == name@,
                None => !self@.contains_key(name@),
            },
    {
        let mut i: usize = 0;
        while i < self.entries.len()
            invariant
                0 <= i <= self.entries@.len(),
                forall|j: int| 0 <= j < i ==> self.entries@[j].0@ != name@,
            decreases self.entries@.len() - i,
        {
            if self.entries[i].0 == *name {
                return Some(i);
            }
            i = i + 1;
        }
        None
    }

    /// Holds `mapping` under `name`, replacing what the name held before.
    fn put(&mut self, name: String, mapping: IdentifierMapping) -> (r: usize)
        requires
            old(self).wf(),
        ensures
            final(self).wf(),
            final(self)@ == old(self)@.insert(name@, mapping@),
            r < final(self).entries@.len(),
            final(self).entries@[r as int].0@ == name@,
            final(self).entries@[r as int].1@ == mapping@,
    {
        let ghost key = name@;
        let ghost value = mapping@;
        match self.find(&name) {
            Some(i) => {
                self.entries.set(i, (name, mapping));
                proof {
                    assert forall|a: int, b: int|
                        0 <= a < self.entries@.len() && 0 <= b < self.entries@.len() && a != b
                            implies #[trigger] self.entries@[a].0@ != #[trigger] self.entries@[b].0@ by {
                        assert(old(self).entries@[a].0@ != old(self).entries@[b].0@);
                    }
                    self.lemma_entry(i as int);
                    assert forall|k: Seq<char>| #[trigger] self@.contains_key(k) == old(self)@.insert(key, value).contains_key(k)
                        && (self@.contains_key(k) ==> self@[k] == old(self)@.insert(key, value)[k]) by {
                        if old(self)@.contains_key(k) {
                            let j = choose|j: int| 0 <= j < old(self).entries@.len() && #[trigger] old(self).entries@[j].0@ == k;
                            old(self).lemma_entry(j);
                            self.lemma_entry(j);
                        }
                        if self@.contains_key(k) {
                            let j = choose|j: int| 0 <= j < self.entries@.len() && #[trigger] self.entries@[j].0@ == k;
                            self.lemma_entry(j);
                            if k != key {
                                old(self).lemma_entry(j);
                            }
                        }
                    }
                    assert(self@ =~= old(self)@.insert(key, value));
                }
                i
            },
            None => {
                self.entries.push((name, mapping));
                let i = self.entries.len() - 1;
                proof {
                    assert forall|a: int, b: int|
                        0 <= a < self.entries@.len() && 0 <= b < self.entries@.len() && a != b
                            implies #[trigger] self.entries@[a].0@ != #[trigger] self.entries@[b].0@ by {
                        if a < i && b < i {
                            assert(old(self).entries@[a].0@ != old(self).entries@[b].0@);
                        } else if a < i {
                            old(self).lemma_entry(a);
                        } else {
                            old(self).lemma_entry(b);
                        }
                    }
                    self.lemma_entry(i as int);
                    assert forall|k: Seq<char>| #[trigger] self@.contains_key(k) == old(self)@.insert(key, value).contains_key(k)
                        && (self@.contains_key(k) ==> self@[k] == old(self)@.insert(key, value)[k]) by {
                        if old(self)@.contains_key(k) {
                            let j = choose|j: int| 0 <= j < old(self).entries@.len() && #[trigger] old(self).entries@[j].0@ == k;
                            old(self).lemma_entry(j);
                            self.lemma_entry(j);
                        }
                        if self@.contains_key(k) {
                            let j = choose|j: int| 0 <= j < self.entries@.len() && #[trigger] self.entries@[j].0@ == k;
                            self.lemma_entry(j);
                            if j < i {
                                old(self).lemma_entry(j);
                            }
                        }
                    }
                    assert(self@ =~= old(self)@.insert(key, value));
                }
                i
            },
        }
    }

    /// Each identifier under its own name; a later one for a name replaces an
    /// earlier one.
    pub fn from_identifiers(identifiers: Vec<IdentifierMapping>) -> (r: IdentifierMap)
        ensures
            r.wf(),
            r@ == identifiers_map(identifiers@.map_values(|m: IdentifierMapping| m@)),
    {
        let ghost ids = identifiers@.map_values(|m: IdentifierMapping| m@);
        let ghost entries = ids.map_values(|m: IdentifierMappingView| (mapping_name(m), m));
        let mut map = IdentifierMap { entries: Vec::new() };
        proof {
            assert(map@ =~= Map::<Seq<char>, IdentifierMappingView>::empty());
            assert(entries.take(0) =~= Seq::<(Seq<char>, IdentifierMappingView)>::empty());
        }
        let mut i: usize = 0;
        while i < identifiers.len()
            invariant
                0 <= i <= identifiers@.len(),
                ids == identifiers@.map_values(|m: IdentifierMapping| m@),
                entries == ids.map_values(|m: IdentifierMappingView| (mapping_name(m), m)),
                map.wf(),
                map@ == entries_map(entries.take(i as int)),
            decreases identifiers@.len() - i,
        {
            let identifier = identifiers[i].duplicate();
            let name = String::from_str(identifier.name());
            proof {
                assert(entries.take(i + 1).drop_last() =~= entries.take(i as int));
                assert(entries.take(i + 1).last() == (mapping_name(identifiers@[i as int]@), identifiers@[i as int]@));
            }
            map.put(name, identifier);
            i = i + 1;
        }
        proof {
            assert(entries.take(identifiers@.len() as int) =~= entries);
        }
        map
    }

    /// The names every script knows: each built-in name maps to its own
    /// variable, and no other name is known.
    pub fn builtins() -> (r: IdentifierMap)
        ensures
            r.wf(),
            r@ == identifiers_map(builtin_list()),
            forall|p: int|
                0 <= p < 2048 ==> #[trigger] r@.contains_key(mapping_name(builtin_at(p))) && r@[mapping_name(
                    builtin_at(p),
                )] == builtin_at(p),
            forall|k: Seq<char>|
                #[trigger] r@.contains_key(k) ==> exists|p: int| 0 <= p < 2048 && k == mapping_name(builtin_at(p)),
    {
        let ids = IdentifierMapping::builtins();
        let ghost views = ids@.map_values(|m: IdentifierMapping| m@);
        let r = IdentifierMap::from_identifiers(ids);
        proof {
            assert(views =~= builtin_list());
            let entries = views.map_values(|m: IdentifierMappingView| (mapping_name(m), m));
            assert forall|i: int, j: int| 0 <= i < entries.len() && 0 <= j < entries.len() && i != j implies
                #[trigger] entries[i].0 != #[trigger] entries[j].0 by {
                lemma_builtin_names_distinct(i, j);
            }
            assert forall|p: int| 0 <= p < 2048 implies #[trigger] r@.contains_key(mapping_name(builtin_at(p)))
                && r@[mapping_name(builtin_at(p))] == builtin_at(p) by {
                lemma_entries_map_has(entries, p);
                lemma_entries_map_value(entries, p);
            }
            assert forall|k: Seq<char>| #[trigger] r@.contains_key(k) implies exists|p: int|
                0 <= p < 2048 && k == mapping_name(builtin_at(p)) by {
                let p = lemma_entries_map_key(entries, k);
                assert(k == mapping_name(builtin_at(p)));
            }
        }
        r
    }

    pub fn get(&self, name: &str) -> (r: Option<&IdentifierMapping>)
        requires
            self.wf(),
        ensures
            self@.contains_key(name@) ==> (r matches Some(m) && m@ == self@[name@]),
            !self@.contains_key(name@) ==> r is None,
    {
        let key = String::from_str(name);
        match self.find(&key) {
            Some(i) => {
                proof {
                    self.lemma_entry(i as int);
                }
                Some(&self.entries[i].1)
            },
            None => None,
        }
    }

    /// Defines `name`: a number literal that fits a byte becomes a number
    /// constant, a string literal a string constant, an identifier a copy of
    /// what that identifier stands for. An unknown identifier, a number out of
    /// a byte's range or a name already defined is an error.
    pub fn define(&mut self, name: String, value: &LogicScriptDefineValue) -> (r: Result<&IdentifierMapping, DefineError>)
        requires
            old(self).wf(),
        ensures
            final(self).wf(),
            match define_outcome(old(self)@, name@, value) {
                DefineOutcome::Defined(m) => (r matches Ok(x) && x@ == m) && final(self)@ == old(self)@.insert(name@, m),
                DefineOutcome::OutOfRange => (r matches Err(DefineError::TryFromIntError(_))) && final(self)@ == old(self)@,
                DefineOutcome::Unknown(n) => (r matches Err(DefineError::UnknownIdentifier { name: x }) && x@ == n)
                    && final(self)@ == old(self)@,
                DefineOutcome::AlreadyDefined => (r matches Err(DefineError::IdentifierAlreadyDefined { name: x })
                    && x@ == name@) && final(self)@ == old(self)@,
            },
    {
        let mapping = match value {
            LogicScriptDefineValue::Literal(literal) => match &literal.value {
                LogicScriptLiteralValue::Number(number) => {
                    let v: u8 = match u8::try_from(number.value) {
                        Ok(v) => v,
                        Err(e) => {
                            return Err(DefineError::TryFromIntError(e));
                        },
                    };
                    IdentifierMapping::ConstantNumber { name: name.clone(), value: v }
                },
                LogicScriptLiteralValue::String(string) => IdentifierMapping::ConstantString {
                    name: name.clone(),
                    value: string.value(),
                },
            },
            LogicScriptDefineValue::Identifier(identifier) => {
                match self.find(&identifier.name) {
                    Some(i) => {
                        proof {
                            self.lemma_entry(i as int);
                        }
                        self.entries[i].1.duplicate()
                    },
                    None => {
                        return Err(DefineError::UnknownIdentifier { name: identifier.name.clone() });
                    },
                }
            },
        };
        match self.find(&name) {
            Some(_) => {
                return Err(DefineError::IdentifierAlreadyDefined { name: name.clone() });
            },
            None => {},
        }
        let i = self.put(name, mapping);
        Ok(&self.entries[i].1)
    }
}

/// How defining a name ends.
pub enum DefineOutcome {
    Defined(IdentifierMappingView),
    OutOfRange,
    Unknown(Seq<char>),
    AlreadyDefined,
}

/// What defining `name` as `value` does with the map `m`.
pub open spec fn define_outcome(
    m: Map<Seq<char>, IdentifierMappingView>,
    name: Seq<char>,
    value: &LogicScriptDefineValue,
) -> DefineOutcome {
    let mapping: Option<IdentifierMappingView> = match value {
        LogicScriptDefineValue::Literal(literal) => match literal.value {
            LogicScriptLiteralValue::Number(number) => if 0 <= number.value <= 255 {
                Some(IdentifierMappingView::ConstantNumber { name, value: number.value as u8 })
            } else {
                None
            },
            LogicScriptLiteralValue::String(s) => Some(IdentifierMappingView::ConstantString { name, value: s.text() }),
        },
        LogicScriptDefineValue::Identifier(identifier) => if m.contains_key(identifier.name@) {
            Some(m[identifier.name@])
        } else {
            None
        },
    };
    match mapping {
        None => match value {
            LogicScriptDefineValue::Identifier(identifier) => DefineOutcome::Unknown(identifier.name@),
            _ => DefineOutcome::OutOfRange,
        },
        Some(mv) => if m.contains_key(name) {
            DefineOutcome::AlreadyDefined
        } else {
            DefineOutcome::Defined(mv)
        },
    }
}

/// The built-in names, in their order.
pub open spec fn builtin_list() -> Seq<IdentifierMappingView> {
    Seq::new(2048, |p: int| builtin_at(p))
}

proof fn lemma_decimal_digits_len(n: nat)
    ensures
        decimal_digits(n).len() >= 1,
        n >= 10 ==> decimal_digits(n).len() >= 2,
    decreases n,
{
    if n >= 10 {
        lemma_decimal_digits_len(n / 10);
    }
}

proof fn lemma_digit_char_injective(x: nat, y: nat)
    requires
        digit_char(x) == digit_char(y),
    ensures
        x % 10 == y % 10,
{
    assert(digit_char(x) as u32 == (x % 10) + 48);
    assert(digit_char(y) as u32 == (y % 10) + 48);
}

/// Two numbers with the same decimal digits are the same number.
proof fn lemma_decimal_digits_injective(a: nat, b: nat)
    requires
        decimal_digits(a) == decimal_digits(b),
    ensures
        a == b,
    decreases a,
{
    lemma_decimal_digits_len(a);
    lemma_decimal_digits_len(b);
    if a < 10 && b < 10 {
        assert(decimal_digits(a) == seq![digit_char(a)]);
        assert(decimal_digits(b) == seq![digit_char(b)]);
        assert(seq![digit_char(a)][0] == digit_char(a));
        assert(seq![digit_char(b)][0] == digit_char(b));
        lemma_digit_char_injective(a, b);
    } else if a >= 10 && b >= 10 {
        let da = decimal_digits(a);
        let db = decimal_digits(b);
        assert(da.last() == db.last());
        lemma_digit_char_injective(a % 10, b % 10);
        assert(da.drop_last() =~= decimal_digits(a / 10));
        assert(db.drop_last() =~= decimal_digits(b / 10));
        lemma_decimal_digits_injective(a / 10, b / 10);
    } else {
        assert(decimal_digits(a).len() != decimal_digits(b).len());
    }
}

/// No two built-in names are the same.
proof fn lemma_builtin_names_distinct(p: int, q: int)
    requires
        0 <= p < 2048,
        0 <= q < 2048,
        p != q,
    ensures
        mapping_name(builtin_at(p)) != mapping_name(builtin_at(q)),
{
    let np = mapping_name(builtin_at(p));
    let nq = mapping_name(builtin_at(q));
    if np == nq {
        assert(np[0] == nq[0]);
        assert(p % 8 == q % 8);
        assert(np.subrange(1, np.len() as int) =~= decimal_digits((p / 8) as nat));
        assert(nq.subrange(1, nq.len() as int) =~= decimal_digits((q / 8) as nat));
        lemma_decimal_digits_injective((p / 8) as nat, (q / 8) as nat);
        assert(p == 8 * (p / 8) + p % 8);
        assert(q == 8 * (q / 8) + q % 8);
    }
}

/// Where no name is held twice, the map gives each entry's value.
proof fn lemma_entries_map_value(entries: Seq<(Seq<char>, IdentifierMappingView)>, p: int)
    requires
        0 <= p < entries.len(),
        forall|i: int, j: int|
            0 <= i < entries.len() && 0 <= j < entries.len() && i != j ==> #[trigger] entries[i].0 != #[trigger] entries[j].0,
    ensures
        entries_map(entries)[entries[p].0] == entries[p].1,
    decreases entries.len(),
{
    if p < entries.len() - 1 {
        lemma_entries_map_value(entries.drop_last(), p);
        assert(entries[p].0 != entries[entries.len() - 1].0);
    }
}

/// Each built-in name stands, in the map of the built-in names, for its own
/// variable.
pub proof fn lemma_builtin_entry(p: int)
    requires
        0 <= p < 2048,
    ensures
        identifiers_map(builtin_list()).contains_key(mapping_name(builtin_at(p))),
        identifiers_map(builtin_list())[mapping_name(builtin_at(p))] == builtin_at(p),
{
    let entries = builtin_list().map_values(|m: IdentifierMappingView| (mapping_name(m), m));
    assert forall|i: int, j: int| 0 <= i < entries.len() && 0 <= j < entries.len() && i != j implies
        #[trigger] entries[i].0 != #[trigger] entries[j].0 by {
        lemma_builtin_names_distinct(i, j);
    }
    lemma_entries_map_has(entries, p);
    lemma_entries_map_value(entries, p);
}

/// The name a script gives a variable, flag, object, item, string or
/// control code argument below 256 is a built-in name, and stands for that
/// number with that type: the argument `LogicScriptArgument::new` makes
/// (its `ensures` is over `script_argument_meaning`) is a name that the map
/// `IdentifierMap::builtins` returns (its view is
/// `identifiers_map(builtin_list())`) maps to that variable.
pub proof fn lemma_argument_names_are_builtins(
    value: u16,
    arg_type: AGICommandArgType,
    messages: Map<u8, Seq<char>>,
    words: Map<u16, Seq<char>>,
)
    requires
        value < 256,
        arg_type == AGICommandArgType::Variable || arg_type == AGICommandArgType::Flag || arg_type
            == AGICommandArgType::Object || arg_type == AGICommandArgType::Item || arg_type
            == AGICommandArgType::String || arg_type == AGICommandArgType::CtrlCode,
    ensures
        script_argument_meaning(value, arg_type, messages, words) matches Some(ArgumentMeaning::Name(n)) && identifiers_map(
            builtin_list(),
        ).contains_key(n) && identifiers_map(builtin_list())[n] == (IdentifierMappingView::Variable {
            name: n,
            number: value,
            variable_type: arg_type,
        }),
{
    let k: int = if arg_type == AGICommandArgType::Variable {
        0
    } else if arg_type == AGICommandArgType::Flag {
        1
    } else if arg_type == AGICommandArgType::Object {
        2
    } else if arg_type == AGICommandArgType::CtrlCode {
        3
    } else if arg_type == AGICommandArgType::Item {
        4
    } else {
        5
    };
    let p = 8 * value + k;
    assert(p / 8 == value as int && p % 8 == k) by (nonlinear_arith)
        requires
            p == 8 * value + k,
            0 <= k < 8,
    ;
    lemma_builtin_entry(p);
}

/// Every key of the map is the name of some entry.
proof fn lemma_entries_map_key(entries: Seq<(Seq<char>, IdentifierMappingView)>, k: Seq<char>) -> (p: int)
    requires
        entries_map(entries).contains_key(k),
    ensures
        0 <= p < entries.len(),
        entries[p].0 == k,
    decreases entries.len(),
{
    if entries.last().0 == k {
        entries.len() - 1
    } else {
        lemma_entries_map_key(entries.drop_last(), k)
    }
}

/// Every name of the entries is a key of the map they give.
proof fn lemma_entries_map_has(entries: Seq<(Seq<char>, IdentifierMappingView)>, p: int)
    requires
        0 <= p < entries.len(),
    ensures
        entries_map(entries).contains_key(entries[p].0),
    decreases entries.len(),
{
    if p < entries.len() - 1 {
        lemma_entries_map_has(entries.drop_last(), p);
    }
}

} // verus!
