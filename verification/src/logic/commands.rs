use vstd::prelude::*;

use crate::agi_version::{AGIVersion, AGIMajorVersion, version_lt};

verus! {

/// What an argument of a command or test stands for.
#[derive(Debug, Clone, Copy, PartialEq, Eq, Structural)]
pub enum AGICommandArgType {
    Number,
    Variable,
    Flag,
    Message,
    Object,
    Item,
    String,
    Word,
    CtrlCode,
}

/// An action command of the logic bytecode.
#[derive(Debug, Clone, PartialEq, Eq)]
pub struct AGICommand {
    pub opcode: u8,
    pub name: String,
    pub arg_types: Vec<AGICommandArgType>,
}

/// A test command, used in the conditions of `if` instructions.
#[derive(Debug, Clone, PartialEq, Eq)]
pub struct TestCommand {
    pub opcode: u8,
    pub name: String,
    pub arg_types: Vec<AGICommandArgType>,
    pub var_args: bool,
}

/// The action commands span opcodes 0 to 182.
pub open spec fn agi_command_known(opcode: u8) -> bool {
    opcode <= 182
}

/// The test commands span opcodes 1 to 19.
pub open spec fn test_command_known(opcode: u8) -> bool {
    1 <= opcode <= 19
}

/// Only `said` takes a counted list of word arguments.
pub open spec fn test_command_var_args(opcode: u8) -> bool {
    opcode == 14
}

pub open spec fn ver(major: AGIMajorVersion, minor: u32) -> AGIVersion {
    AGIVersion { major, minor }
}

/// Opcodes that an interpreter version does not know yet.
pub open spec fn agi_command_gated(opcode: u8, v: AGIVersion) -> bool {
    ||| (opcode > 177 && version_lt(v, ver(AGIMajorVersion::AGI3, 2086)))
    ||| (opcode > 175 && version_lt(v, ver(AGIMajorVersion::AGI2, 936)))
    ||| (opcode > 173 && version_lt(v, ver(AGIMajorVersion::AGI2, 917)))
    ||| (opcode > 169 && version_lt(v, ver(AGIMajorVersion::AGI2, 440)))
    ||| (opcode > 161 && version_lt(v, ver(AGIMajorVersion::AGI2, 272)))
    ||| (opcode > 155 && version_lt(v, ver(AGIMajorVersion::AGI2, 89)))
}

/// Opcodes whose argument lists differ in early interpreters, a variant
/// that this table does not describe.
pub open spec fn agi_command_variant_unsupported(opcode: u8, v: AGIVersion) -> bool {
    ||| (opcode == 134 && v == ver(AGIMajorVersion::AGI2, 89))
    ||| ((opcode == 151 || opcode == 152) && version_lt(v, ver(AGIMajorVersion::AGI2, 400)))
    ||| (opcode == 176 && version_lt(v, ver(AGIMajorVersion::AGI2, 2086)))
}

/// `c` is the table's entry for action opcode `opcode`.
pub open spec fn is_agi_command_entry(c: AGICommand, opcode: u8) -> bool {
    &&& c.opcode == opcode
    &&& c.name@ == agi_command_name(opcode)
    &&& c.arg_types@ == agi_command_arg_types(opcode)
}

/// `c` is the table's entry for test opcode `opcode`.
pub open spec fn is_test_command_entry(c: TestCommand, opcode: u8) -> bool {
    &&& c.opcode == opcode
    &&& c.name@ == test_command_name(opcode)
    &&& c.arg_types@ == test_command_arg_types(opcode)
    &&& c.var_args == test_command_var_args(opcode)
}

impl AGICommand {
    /// The action command with `opcode`, as the interpreter `agi_version` knows it.
    pub fn get(opcode: u8, agi_version: &AGIVersion) -> (r: Option<AGICommand>)
        requires
            !agi_command_variant_unsupported(opcode, *agi_version),
        ensures
            (agi_command_gated(opcode, *agi_version) || !agi_command_known(opcode)) ==> r is None,
            (!agi_command_gated(opcode, *agi_version) && agi_command_known(opcode)) ==> (
            r matches Some(c) && is_agi_command_entry(c, opcode)),
    {
        if opcode > 177 && agi_version.less_than(&AGIVersion { major: AGIMajorVersion::AGI3, minor: 2086 }) {
            return None;
        } else if opcode > 175 && agi_version.less_than(&AGIVersion { major: AGIMajorVersion::AGI2, minor: 936 }) {
            return None;
        } else if opcode > 173 && agi_version.less_than(&AGIVersion { major: AGIMajorVersion::AGI2, minor: 917 }) {
            return None;
        } else if opcode > 169 && agi_version.less_than(&AGIVersion { major: AGIMajorVersion::AGI2, minor: 440 }) {
            return None;
        } else if opcode > 161 && agi_version.less_than(&AGIVersion { major: AGIMajorVersion::AGI2, minor: 272 }) {
            return None;
        } else if opcode > 155 && agi_version.less_than(&AGIVersion { major: AGIMajorVersion::AGI2, minor: 89 }) {
            return None;
        }
        agi_command_by_opcode(opcode)
    }
}

/// Whether interpreter `agi_version` does not know action opcode `opcode` yet.
fn is_gated(opcode: u8, agi_version: &AGIVersion) -> (r: bool)
    ensures
        r == agi_command_gated(opcode, *agi_version),
{
    (opcode > 177 && agi_version.less_than(&AGIVersion { major: AGIMajorVersion::AGI3, minor: 2086 }))
        || (opcode > 175 && agi_version.less_than(&AGIVersion { major: AGIMajorVersion::AGI2, minor: 936 }))
        || (opcode > 173 && agi_version.less_than(&AGIVersion { major: AGIMajorVersion::AGI2, minor: 917 }))
        || (opcode > 169 && agi_version.less_than(&AGIVersion { major: AGIMajorVersion::AGI2, minor: 440 }))
        || (opcode > 161 && agi_version.less_than(&AGIVersion { major: AGIMajorVersion::AGI2, minor: 272 }))
        || (opcode > 155 && agi_version.less_than(&AGIVersion { major: AGIMajorVersion::AGI2, minor: 89 }))
}

/// The first action opcode from `k` on whose command is called `name` and
/// that interpreter `v` knows.
pub open spec fn command_named_from(name: Seq<char>, v: AGIVersion, k: int) -> Option<u8>
    decreases 183 - k,
{
    if k < 0 || k > 182 {
        None
    } else if agi_command_name(k as u8) == name && !agi_command_gated(k as u8, v) {
        Some(k as u8)
    } else {
        command_named_from(name, v, k + 1)
    }
}

impl AGICommand {
    /// The action command called `name` that interpreter `agi_version`
    /// knows. Commands whose argument lists differ in early interpreters are
    /// found with the table's argument list.
    pub fn by_name(name: &String, agi_version: &AGIVersion) -> (r: Option<AGICommand>)
        ensures
            match command_named_from(name@, *agi_version, 0) {
                Some(op) => r matches Some(c) && is_agi_command_entry(c, op),
                None => r is None,
            },
    {
        let mut k: u8 = 0;
        while k <= 182
            invariant
                k <= 183,
                command_named_from(name@, *agi_version, 0) == command_named_from(name@, *agi_version, k as int),
            decreases 183 - k,
        {
            let candidate = String::from_str(agi_command_name_str(k));
            if candidate == *name && !is_gated(k, agi_version) {
                return agi_command_by_opcode(k);
            }
            k = k + 1;
        }
        None
    }
}

/// The table's action command with `opcode`, whatever the version.
pub fn agi_command_by_opcode(opcode: u8) -> (r: Option<AGICommand>)
    ensures
        !agi_command_known(opcode) ==> r is None,
        agi_command_known(opcode) ==> (r matches Some(c) && is_agi_command_entry(c, opcode)),
{
    if opcode > 182 {
        return None;
    }
    let name = agi_command_name_str(opcode);
    Some(AGICommand { opcode, name: name.to_owned(), arg_types: agi_command_arg_vec(opcode) })
}

impl TestCommand {
    /// The test command with `opcode`.
    pub fn get(opcode: u8) -> (r: Option<TestCommand>)
        ensures
            !test_command_known(opcode) ==> r is None,
            test_command_known(opcode) ==> (r matches Some(c) && is_test_command_entry(c, opcode)),
    {
        if opcode < 1 || opcode > 19 {
            return None;
        }
        let name = test_command_name_str(opcode);
        Some(TestCommand {
            opcode,
            name: name.to_owned(),
            arg_types: test_command_arg_vec(opcode),
            var_args: opcode == 14,
        })
    }
}

pub open spec fn agi_command_name(opcode: u8) -> Seq<char> {
    match opcode {
        0u8 => "return"@,
        1u8 => "increment"@,
        2u8 => "decrement"@,
        3u8 => "assignn"@,
        4u8 => "assignv"@,
        5u8 => "addn"@,
        6u8 => "addv"@,
        7u8 => "subn"@,
        8u8 => "subv"@,
        9u8 => "lindirectv"@,
        10u8 => "rindirect"@,
        11u8 => "lindirectn"@,
        12u8 => "set"@,
        13u8 => "reset"@,
        14u8 => "toggle"@,
        15u8 => "set.v"@,
        16u8 => "reset.v"@,
        17u8 => "toggle.v"@,
        18u8 => "new.room"@,
        19u8 => "new.room.v"@,
        20u8 => "load.logics"@,
        21u8 => "load.logics.v"@,
        22u8 => "call"@,
        23u8 => "call.v"@,
        24u8 => "load.pic"@,
        25u8 => "draw.pic"@,
        26u8 => "show.pic"@,
        27u8 => "discard.pic"@,
        28u8 => "overlay.pic"@,
        29u8 => "show.pri.screen"@,
        30u8 => "load.view"@,
        31u8 => "load.view.v"@,
        32u8 => "discard.view"@,
        33u8 => "animate.obj"@,
        34u8 => "unanimate.all"@,
        35u8 => "draw"@,
        36u8 => "erase"@,
        37u8 => "position"@,
        38u8 => "position.v"@,
        39u8 => "get.posn"@,
        40u8 => "reposition"@,
        41u8 => "set.view"@,
        42u8 => "set.view.v"@,
        43u8 => "set.loop"@,
        44u8 => "set.loop.v"@,
        45u8 => "fix.loop"@,
        46u8 => "release.loop"@,
        47u8 => "set.cel"@,
        48u8 => "set.cel.v"@,
        49u8 => "last.cel"@,
        50u8 => "current.cel"@,
        51u8 => "current.loop"@,
        52u8 => "current.view"@,
        53u8 => "number.of.loops"@,
        54u8 => "set.priority"@,
        55u8 => "set.priority.v"@,
        56u8 => "release.priority"@,
        57u8 => "get.priority"@,
        58u8 => "stop.update"@,
        59u8 => "start.update"@,
        60u8 => "force.update"@,
        61u8 => "ignore.horizon"@,
        62u8 => "observe.horizon"@,
        63u8 => "set.horizon"@,
        64u8 => "object.on.water"@,
        65u8 => "object.on.land"@,
        66u8 => "object.on.anything"@,
        67u8 => "ignore.objs"@,
        68u8 => "observe.objs"@,
        69u8 => "distance"@,
        70u8 => "stop.cycling"@,
        71u8 => "start.cycling"@,
        72u8 => "normal.cycle"@,
        73u8 => "end.of.loop"@,
        74u8 => "reverse.cycle"@,
        75u8 => "reverse.loop"@,
        76u8 => "cycle.time"@,
        77u8 => "stop.motion"@,
        78u8 => "start.motion"@,
        79u8 => "step.size"@,
        80u8 => "step.time"@,
        81u8 => "move.obj"@,
        82u8 => "move.obj.v"@,
        83u8 => "follow.ego"@,
        84u8 => "wander"@,
        85u8 => "normal.motion"@,
        86u8 => "set.dir"@,
        87u8 => "get.dir"@,
        88u8 => "ignore.blocks"@,
        89u8 => "observe.blocks"@,
        90u8 => "block"@,
        91u8 => "unblock"@,
        92u8 => "get"@,
        93u8 => "get.v"@,
        94u8 => "drop"@,
        95u8 => "put"@,
        96u8 => "put.v"@,
        97u8 => "get.room.v"@,
        98u8 => "load.sound"@,
        99u8 => "sound"@,
        100u8 => "stop.sound"@,
        101u8 => "print"@,
        102u8 => "print.v"@,
        103u8 => "display"@,
        104u8 => "display.v"@,
        105u8 => "clear.lines"@,
        106u8 => "text.screen"@,
        107u8 => "graphics"@,
        108u8 => "set.cursor.char"@,
        109u8 => "set.text.attribute"@,
        110u8 => "shake.screen"@,
        111u8 => "configure.screen"@,
        112u8 => "status.line.on"@,
        113u8 => "status.line.off"@,
        114u8 => "set.string"@,
        115u8 => "get.string"@,
        116u8 => "word.to.string"@,
        117u8 => "parse"@,
        118u8 => "get.num"@,
        119u8 => "prevent.input"@,
        120u8 => "accept.input"@,
        121u8 => "set.key"@,
        122u8 => "add.to.pic"@,
        123u8 => "add.to.pic.v"@,
        124u8 => "status"@,
        125u8 => "save.game"@,
        126u8 => "restore.game"@,
        127u8 => "init.disk"@,
        128u8 => "restart.game"@,
        129u8 => "show.obj"@,
        130u8 => "random"@,
        131u8 => "program.control"@,
        132u8 => "player.control"@,
        133u8 => "obj.status.v"@,
        134u8 => "quit"@,
        135u8 => "show.mem"@,
        136u8 => "pause"@,
        137u8 => "echo.line"@,
        138u8 => "cancel.line"@,
        139u8 => "init.joy"@,
        140u8 => "toggle.monitor"@,
        141u8 => "version"@,
        142u8 => "script.size"@,
        143u8 => "set.game.id"@,
        144u8 => "log"@,
        145u8 => "set.scan.start"@,
        146u8 => "reset.scan.start"@,
        147u8 => "reposition.to"@,
        148u8 => "reposition.to.v"@,
        149u8 => "trace.on"@,
        150u8 => "trace.info"@,
        151u8 => "print.at"@,
        152u8 => "print.at.v"@,
        153u8 => "discard.view.v"@,
        154u8 => "clear.text.rect"@,
        155u8 => "set.upper.left"@,
        156u8 => "set.menu"@,
        157u8 => "set.menu.item"@,
        158u8 => "submit.menu"@,
        159u8 => "enable.item"@,
        160u8 => "disable.item"@,
        161u8 => "menu.input"@,
        162u8 => "show.obj.v"@,
        163u8 => "open.dialogue"@,
        164u8 => "close.dialogue"@,
        165u8 => "mul.n"@,
        166u8 => "mul.v"@,
        167u8 => "div.n"@,
        168u8 => "div.v"@,
        169u8 => "close.window"@,
        170u8 => "set.simple"@,
        171u8 => "push.script"@,
        172u8 => "pop.script"@,
        173u8 => "hold.key"@,
        174u8 => "set.pri.base"@,
        175u8 => "discard.sound"@,
        176u8 => "hide.mouse"@,
        177u8 => "allow.menu"@,
        178u8 => "show.mouse"@,
        179u8 => "fence.mouse"@,
        180u8 => "mouse.posn"@,
        181u8 => "release.key"@,
        182u8 => "adj.ego.move.to.x.y"@,
        _ => ""@,
    }
}

pub open spec fn agi_command_arg_types(opcode: u8) -> Seq<AGICommandArgType> {
    match opcode {
        0u8 => seq![],
        1u8 => seq![AGICommandArgType::Variable],
        2u8 => seq![AGICommandArgType::Variable],
        3u8 => seq![AGICommandArgType::Variable, AGICommandArgType::Number],
        4u8 => seq![AGICommandArgType::Variable, AGICommandArgType::Variable],
        5u8 => seq![AGICommandArgType::Variable, AGICommandArgType::Number],
        6u8 => seq![AGICommandArgType::Variable, AGICommandArgType::Variable],
        7u8 => seq![AGICommandArgType::Variable, AGICommandArgType::Number],
        8u8 => seq![AGICommandArgType::Variable, AGICommandArgType::Variable],
        9u8 => seq![AGICommandArgType::Variable, AGICommandArgType::Variable],
        10u8 => seq![AGICommandArgType::Variable, AGICommandArgType::Variable],
        11u8 => seq![AGICommandArgType::Variable, AGICommandArgType::Number],
        12u8 => seq![AGICommandArgType::Flag],
        13u8 => seq![AGICommandArgType::Flag],
        14u8 => seq![AGICommandArgType::Flag],
        15u8 => seq![AGICommandArgType::Variable],
        16u8 => seq![AGICommandArgType::Variable],
        17u8 => seq![AGICommandArgType::Variable],
        18u8 => seq![AGICommandArgType::Number],
        19u8 => seq![AGICommandArgType::Variable],
        20u8 => seq![AGICommandArgType::Number],
        21u8 => seq![AGICommandArgType::Variable],
        22u8 => seq![AGICommandArgType::Number],
        23u8 => seq![AGICommandArgType::Variable],
        24u8 => seq![AGICommandArgType::Variable],
        25u8 => seq![AGICommandArgType::Variable],
        26u8 => seq![],
        27u8 => seq![AGICommandArgType::Variable],
        28u8 => seq![AGICommandArgType::Variable],
        29u8 => seq![],
        30u8 => seq![AGICommandArgType::Number],
        31u8 => seq![AGICommandArgType::Variable],
        32u8 => seq![AGICommandArgType::Number],
        33u8 => seq![AGICommandArgType::Object],
        34u8 => seq![],
        35u8 => seq![AGICommandArgType::Object],
        36u8 => seq![AGICommandArgType::Object],
        37u8 => seq![AGICommandArgType::Object, AGICommandArgType::Number, AGICommandArgType::Number],
        38u8 => seq![AGICommandArgType::Object, AGICommandArgType::Variable, AGICommandArgType::Variable],
        39u8 => seq![AGICommandArgType::Object, AGICommandArgType::Variable, AGICommandArgType::Variable],
        40u8 => seq![AGICommandArgType::Object, AGICommandArgType::Variable, AGICommandArgType::Variable],
        41u8 => seq![AGICommandArgType::Object, AGICommandArgType::Number],
        42u8 => seq![AGICommandArgType::Object, AGICommandArgType::Variable],
        43u8 => seq![AGICommandArgType::Object, AGICommandArgType::Number],
        44u8 => seq![AGICommandArgType::Object, AGICommandArgType::Variable],
        45u8 => seq![AGICommandArgType::Object],
        46u8 => seq![AGICommandArgType::Object],
        47u8 => seq![AGICommandArgType::Object, AGICommandArgType::Number],
        48u8 => seq![AGICommandArgType::Object, AGICommandArgType::Variable],
        49u8 => seq![AGICommandArgType::Object, AGICommandArgType::Variable],
        50u8 => seq![AGICommandArgType::Object, AGICommandArgType::Variable],
        51u8 => seq![AGICommandArgType::Object, AGICommandArgType::Variable],
        52u8 => seq![AGICommandArgType::Object, AGICommandArgType::Variable],
        53u8 => seq![AGICommandArgType::Object, AGICommandArgType::Variable],
        54u8 => seq![AGICommandArgType::Object, AGICommandArgType::Number],
        55u8 => seq![AGICommandArgType::Object, AGICommandArgType::Variable],
        56u8 => seq![AGICommandArgType::Object],
        57u8 => seq![AGICommandArgType::Object, AGICommandArgType::Variable],
        58u8 => seq![AGICommandArgType::Object],
        59u8 => seq![AGICommandArgType::Object],
        60u8 => seq![AGICommandArgType::Object],
        61u8 => seq![AGICommandArgType::Object],
        62u8 => seq![AGICommandArgType::Object],
        63u8 => seq![AGICommandArgType::Number],
        64u8 => seq![AGICommandArgType::Object],
        65u8 => seq![AGICommandArgType::Object],
        66u8 => seq![AGICommandArgType::Object],
        67u8 => seq![AGICommandArgType::Object],
        68u8 => seq![AGICommandArgType::Object],
        69u8 => seq![AGICommandArgType::Object, AGICommandArgType::Object, AGICommandArgType::Variable],
        70u8 => seq![AGICommandArgType::Object],
        71u8 => seq![AGICommandArgType::Object],
        72u8 => seq![AGICommandArgType::Object],
        73u8 => seq![AGICommandArgType::Object, AGICommandArgType::Flag],
        74u8 => seq![AGICommandArgType::Object],
        75u8 => seq![AGICommandArgType::Object, AGICommandArgType::Flag],
        76u8 => seq![AGICommandArgType::Object, AGICommandArgType::Variable],
        77u8 => seq![AGICommandArgType::Object],
        78u8 => seq![AGICommandArgType::Object],
        79u8 => seq![AGICommandArgType::Object, AGICommandArgType::Variable],
        80u8 => seq![AGICommandArgType::Object, AGICommandArgType::Variable],
        81u8 => seq![AGICommandArgType::Object, AGICommandArgType::Number, AGICommandArgType::Number, AGICommandArgType::Number, AGICommandArgType::Flag],
        82u8 => seq![AGICommandArgType::Object, AGICommandArgType::Variable, AGICommandArgType::Variable, AGICommandArgType::Variable, AGICommandArgType::Flag],
        83u8 => seq![AGICommandArgType::Object, AGICommandArgType::Number, AGICommandArgType::Flag],
        84u8 => seq![AGICommandArgType::Object],
        85u8 => seq![AGICommandArgType::Object],
        86u8 => seq![AGICommandArgType::Object, AGICommandArgType::Variable],
        87u8 => seq![AGICommandArgType::Object, AGICommandArgType::Variable],
        88u8 => seq![AGICommandArgType::Object],
        89u8 => seq![AGICommandArgType::Object],
        90u8 => seq![AGICommandArgType::Number, AGICommandArgType::Number, AGICommandArgType::Number, AGICommandArgType::Number],
        91u8 => seq![],
        92u8 => seq![AGICommandArgType::Item],
        93u8 => seq![AGICommandArgType::Variable],
        94u8 => seq![AGICommandArgType::Item],
        95u8 => seq![AGICommandArgType::Item, AGICommandArgType::Variable],
        96u8 => seq![AGICommandArgType::Variable, AGICommandArgType::Variable],
        97u8 => seq![AGICommandArgType::Variable, AGICommandArgType::Variable],
        98u8 => seq![AGICommandArgType::Number],
        99u8 => seq![AGICommandArgType::Number, AGICommandArgType::Flag],
        100u8 => seq![],
        101u8 => seq![AGICommandArgType::Message],
        102u8 => seq![AGICommandArgType::Variable],
        103u8 => seq![AGICommandArgType::Number, AGICommandArgType::Number, AGICommandArgType::Message],
        104u8 => seq![AGICommandArgType::Variable, AGICommandArgType::Variable, AGICommandArgType::Variable],
        105u8 => seq![AGICommandArgType::Number, AGICommandArgType::Number, AGICommandArgType::Number],
        106u8 => seq![],
        107u8 => seq![],
        108u8 => seq![AGICommandArgType::Message],
        109u8 => seq![AGICommandArgType::Number, AGICommandArgType::Number],
        110u8 => seq![AGICommandArgType::Number],
        111u8 => seq![AGICommandArgType::Number, AGICommandArgType::Number, AGICommandArgType::Number],
        112u8 => seq![],
        113u8 => seq![],
        114u8 => seq![AGICommandArgType::String, AGICommandArgType::Message],
        115u8 => seq![AGICommandArgType::String, AGICommandArgType::Message, AGICommandArgType::Number, AGICommandArgType::Number, AGICommandArgType::Number],
        116u8 => seq![AGICommandArgType::String, AGICommandArgType::Word],
        117u8 => seq![AGICommandArgType::String],
        118u8 => seq![AGICommandArgType::Message, AGICommandArgType::Variable],
        119u8 => seq![],
        120u8 => seq![],
        121u8 => seq![AGICommandArgType::Number, AGICommandArgType::Number, AGICommandArgType::CtrlCode],
        122u8 => seq![AGICommandArgType::Number, AGICommandArgType::Number, AGICommandArgType::Number, AGICommandArgType::Number, AGICommandArgType::Number, AGICommandArgType::Number, AGICommandArgType::Number],
        123u8 => seq![AGICommandArgType::Variable, AGICommandArgType::Variable, AGICommandArgType::Variable, AGICommandArgType::Variable, AGICommandArgType::Variable, AGICommandArgType::Variable, AGICommandArgType::Variable],
        124u8 => seq![],
        125u8 => seq![],
        126u8 => seq![],
        127u8 => seq![],
        128u8 => seq![],
        129u8 => seq![AGICommandArgType::Number],
        130u8 => seq![AGICommandArgType::Number, AGICommandArgType::Number, AGICommandArgType::Variable],
        131u8 => seq![],
        132u8 => seq![],
        133u8 => seq![AGICommandArgType::Variable],
        134u8 => seq![AGICommandArgType::Number],
        135u8 => seq![],
        136u8 => seq![],
        137u8 => seq![],
        138u8 => seq![],
        139u8 => seq![],
        140u8 => seq![],
        141u8 => seq![],
        142u8 => seq![AGICommandArgType::Number],
        143u8 => seq![AGICommandArgType::Message],
        144u8 => seq![AGICommandArgType::Message],
        145u8 => seq![],
        146u8 => seq![],
        147u8 => seq![AGICommandArgType::Object, AGICommandArgType::Number, AGICommandArgType::Number],
        148u8 => seq![AGICommandArgType::Object, AGICommandArgType::Variable, AGICommandArgType::Variable],
        149u8 => seq![],
        150u8 => seq![AGICommandArgType::Number, AGICommandArgType::Number, AGICommandArgType::Number],
        151u8 => seq![AGICommandArgType::Message, AGICommandArgType::Number, AGICommandArgType::Number, AGICommandArgType::Number],
        152u8 => seq![AGICommandArgType::Variable, AGICommandArgType::Number, AGICommandArgType::Number, AGICommandArgType::Number],
        153u8 => seq![AGICommandArgType::Variable],
        154u8 => seq![AGICommandArgType::Number, AGICommandArgType::Number, AGICommandArgType::Number, AGICommandArgType::Number, AGICommandArgType::Number],
        155u8 => seq![AGICommandArgType::Number, AGICommandArgType::Number],
        156u8 => seq![AGICommandArgType::Message],
        157u8 => seq![AGICommandArgType::Message, AGICommandArgType::CtrlCode],
        158u8 => seq![],
        159u8 => seq![AGICommandArgType::CtrlCode],
        160u8 => seq![AGICommandArgType::CtrlCode],
        161u8 => seq![],
        162u8 => seq![AGICommandArgType::Variable],
        163u8 => seq![],
        164u8 => seq![],
        165u8 => seq![AGICommandArgType::Variable, AGICommandArgType::Number],
        166u8 => seq![AGICommandArgType::Variable, AGICommandArgType::Variable],
        167u8 => seq![AGICommandArgType::Variable, AGICommandArgType::Number],
        168u8 => seq![AGICommandArgType::Variable, AGICommandArgType::Variable],
        169u8 => seq![],
        170u8 => seq![AGICommandArgType::Number],
        171u8 => seq![],
        172u8 => seq![],
        173u8 => seq![],
        174u8 => seq![AGICommandArgType::Number],
        175u8 => seq![AGICommandArgType::Number],
        176u8 => seq![],
        177u8 => seq![AGICommandArgType::Number],
        178u8 => seq![],
        179u8 => seq![AGICommandArgType::Number, AGICommandArgType::Number, AGICommandArgType::Number, AGICommandArgType::Number],
        180u8 => seq![AGICommandArgType::Variable, AGICommandArgType::Variable],
        181u8 => seq![],
        182u8 => seq![],
        _ => Seq::empty(),
    }
}

pub open spec fn test_command_name(opcode: u8) -> Seq<char> {
    match opcode {
        1u8 => "equaln"@,
        2u8 => "equalv"@,
        3u8 => "lessn"@,
        4u8 => "lessv"@,
        5u8 => "greatern"@,
        6u8 => "greaterv"@,
        7u8 => "isset"@,
        8u8 => "isset.v"@,
        9u8 => "has"@,
        10u8 => "obj.in.room"@,
        11u8 => "posn"@,
        12u8 => "controller"@,
        13u8 => "have.key"@,
        14u8 => "said"@,
        15u8 => "compare.strings"@,
        16u8 => "obj.in.box"@,
        17u8 => "center.posn"@,
        18u8 => "right.posn"@,
        19u8 => "in.motion.using.mouse"@,
        _ => ""@,
    }
}

pub open spec fn test_command_arg_types(opcode: u8) -> Seq<AGICommandArgType> {
    match opcode {
        1u8 => seq![AGICommandArgType::Variable, AGICommandArgType::Number],
        2u8 => seq![AGICommandArgType::Variable, AGICommandArgType::Variable],
        3u8 => seq![AGICommandArgType::Variable, AGICommandArgType::Number],
        4u8 => seq![AGICommandArgType::Variable, AGICommandArgType::Variable],
        5u8 => seq![AGICommandArgType::Variable, AGICommandArgType::Number],
        6u8 => seq![AGICommandArgType::Variable, AGICommandArgType::Variable],
        7u8 => seq![AGICommandArgType::Flag],
        8u8 => seq![AGICommandArgType::Variable],
        9u8 => seq![AGICommandArgType::Item],
        10u8 => seq![AGICommandArgType::Item, AGICommandArgType::Variable],
        11u8 => seq![AGICommandArgType::Object, AGICommandArgType::Number, AGICommandArgType::Number, AGICommandArgType::Number, AGICommandArgType::Number],
        12u8 => seq![AGICommandArgType::CtrlCode],
        13u8 => seq![],
        14u8 => seq![],
        15u8 => seq![AGICommandArgType::String, AGICommandArgType::String],
        16u8 => seq![AGICommandArgType::Object, AGICommandArgType::Number, AGICommandArgType::Number, AGICommandArgType::Number, AGICommandArgType::Number],
        17u8 => seq![AGICommandArgType::Object, AGICommandArgType::Number, AGICommandArgType::Number, AGICommandArgType::Number, AGICommandArgType::Number],
        18u8 => seq![AGICommandArgType::Object, AGICommandArgType::Number, AGICommandArgType::Number, AGICommandArgType::Number, AGICommandArgType::Number],
        19u8 => seq![],
        _ => Seq::empty(),
    }
}

fn agi_command_name_str(opcode: u8) -> (r: &'static str)
    ensures
        r@ == agi_command_name(opcode),
{
    match opcode {
        0u8 => "return",
        1u8 => "increment",
        2u8 => "decrement",
        3u8 => "assignn",
        4u8 => "assignv",
        5u8 => "addn",
        6u8 => "addv",
        7u8 => "subn",
        8u8 => "subv",
        9u8 => "lindirectv",
        10u8 => "rindirect",
        11u8 => "lindirectn",
        12u8 => "set",
        13u8 => "reset",
        14u8 => "toggle",
        15u8 => "set.v",
        16u8 => "reset.v",
        17u8 => "toggle.v",
        18u8 => "new.room",
        19u8 => "new.room.v",
        20u8 => "load.logics",
        21u8 => "load.logics.v",
        22u8 => "call",
        23u8 => "call.v",
        24u8 => "load.pic",
        25u8 => "draw.pic",
        26u8 => "show.pic",
        27u8 => "discard.pic",
        28u8 => "overlay.pic",
        29u8 => "show.pri.screen",
        30u8 => "load.view",
        31u8 => "load.view.v",
        32u8 => "discard.view",
        33u8 => "animate.obj",
        34u8 => "unanimate.all",
        35u8 => "draw",
        36u8 => "erase",
        37u8 => "position",
        38u8 => "position.v",
        39u8 => "get.posn",
        40u8 => "reposition",
        41u8 => "set.view",
        42u8 => "set.view.v",
        43u8 => "set.loop",
        44u8 => "set.loop.v",
        45u8 => "fix.loop",
        46u8 => "release.loop",
        47u8 => "set.cel",
        48u8 => "set.cel.v",
        49u8 => "last.cel",
        50u8 => "current.cel",
        51u8 => "current.loop",
        52u8 => "current.view",
        53u8 => "number.of.loops",
        54u8 => "set.priority",
        55u8 => "set.priority.v",
        56u8 => "release.priority",
        57u8 => "get.priority",
        58u8 => "stop.update",
        59u8 => "start.update",
        60u8 => "force.update",
        61u8 => "ignore.horizon",
        62u8 => "observe.horizon",
        63u8 => "set.horizon",
        64u8 => "object.on.water",
        65u8 => "object.on.land",
        66u8 => "object.on.anything",
        67u8 => "ignore.objs",
        68u8 => "observe.objs",
        69u8 => "distance",
        70u8 => "stop.cycling",
        71u8 => "start.cycling",
        72u8 => "normal.cycle",
        73u8 => "end.of.loop",
        74u8 => "reverse.cycle",
        75u8 => "reverse.loop",
        76u8 => "cycle.time",
        77u8 => "stop.motion",
        78u8 => "start.motion",
        79u8 => "step.size",
        80u8 => "step.time",
        81u8 => "move.obj",
        82u8 => "move.obj.v",
        83u8 => "follow.ego",
        84u8 => "wander",
        85u8 => "normal.motion",
        86u8 => "set.dir",
        87u8 => "get.dir",
        88u8 => "ignore.blocks",
        89u8 => "observe.blocks",
        90u8 => "block",
        91u8 => "unblock",
        92u8 => "get",
        93u8 => "get.v",
        94u8 => "drop",
        95u8 => "put",
        96u8 => "put.v",
        97u8 => "get.room.v",
        98u8 => "load.sound",
        99u8 => "sound",
        100u8 => "stop.sound",
        101u8 => "print",
        102u8 => "print.v",
        103u8 => "display",
        104u8 => "display.v",
        105u8 => "clear.lines",
        106u8 => "text.screen",
        107u8 => "graphics",
        108u8 => "set.cursor.char",
        109u8 => "set.text.attribute",
        110u8 => "shake.screen",
        111u8 => "configure.screen",
        112u8 => "status.line.on",
        113u8 => "status.line.off",
        114u8 => "set.string",
        115u8 => "get.string",
        116u8 => "word.to.string",
        117u8 => "parse",
        118u8 => "get.num",
        119u8 => "prevent.input",
        120u8 => "accept.input",
        121u8 => "set.key",
        122u8 => "add.to.pic",
        123u8 => "add.to.pic.v",
        124u8 => "status",
        125u8 => "save.game",
        126u8 => "restore.game",
        127u8 => "init.disk",
        128u8 => "restart.game",
        129u8 => "show.obj",
        130u8 => "random",
        131u8 => "program.control",
        132u8 => "player.control",
        133u8 => "obj.status.v",
        134u8 => "quit",
        135u8 => "show.mem",
        136u8 => "pause",
        137u8 => "echo.line",
        138u8 => "cancel.line",
        139u8 => "init.joy",
        140u8 => "toggle.monitor",
        141u8 => "version",
        142u8 => "script.size",
        143u8 => "set.game.id",
        144u8 => "log",
        145u8 => "set.scan.start",
        146u8 => "reset.scan.start",
        147u8 => "reposition.to",
        148u8 => "reposition.to.v",
        149u8 => "trace.on",
        150u8 => "trace.info",
        151u8 => "print.at",
        152u8 => "print.at.v",
        153u8 => "discard.view.v",
        154u8 => "clear.text.rect",
        155u8 => "set.upper.left",
        156u8 => "set.menu",
        157u8 => "set.menu.item",
        158u8 => "submit.menu",
        159u8 => "enable.item",
        160u8 => "disable.item",
        161u8 => "menu.input",
        162u8 => "show.obj.v",
        163u8 => "open.dialogue",
        164u8 => "close.dialogue",
        165u8 => "mul.n",
        166u8 => "mul.v",
        167u8 => "div.n",
        168u8 => "div.v",
        169u8 => "close.window",
        170u8 => "set.simple",
        171u8 => "push.script",
        172u8 => "pop.script",
        173u8 => "hold.key",
        174u8 => "set.pri.base",
        175u8 => "discard.sound",
        176u8 => "hide.mouse",
        177u8 => "allow.menu",
        178u8 => "show.mouse",
        179u8 => "fence.mouse",
        180u8 => "mouse.posn",
        181u8 => "release.key",
        182u8 => "adj.ego.move.to.x.y",
        _ => "",
    }
}

fn agi_command_arg_vec(opcode: u8) -> (r: Vec<AGICommandArgType>)
    ensures
        r@ == agi_command_arg_types(opcode),
{
    match opcode {
        0u8 => vec![],
        1u8 => vec![AGICommandArgType::Variable],
        2u8 => vec![AGICommandArgType::Variable],
        3u8 => vec![AGICommandArgType::Variable, AGICommandArgType::Number],
        4u8 => vec![AGICommandArgType::Variable, AGICommandArgType::Variable],
        5u8 => vec![AGICommandArgType::Variable, AGICommandArgType::Number],
        6u8 => vec![AGICommandArgType::Variable, AGICommandArgType::Variable],
        7u8 => vec![AGICommandArgType::Variable, AGICommandArgType::Number],
        8u8 => vec![AGICommandArgType::Variable, AGICommandArgType::Variable],
        9u8 => vec![AGICommandArgType::Variable, AGICommandArgType::Variable],
        10u8 => vec![AGICommandArgType::Variable, AGICommandArgType::Variable],
        11u8 => vec![AGICommandArgType::Variable, AGICommandArgType::Number],
        12u8 => vec![AGICommandArgType::Flag],
        13u8 => vec![AGICommandArgType::Flag],
        14u8 => vec![AGICommandArgType::Flag],
        15u8 => vec![AGICommandArgType::Variable],
        16u8 => vec![AGICommandArgType::Variable],
        17u8 => vec![AGICommandArgType::Variable],
        18u8 => vec![AGICommandArgType::Number],
        19u8 => vec![AGICommandArgType::Variable],
        20u8 => vec![AGICommandArgType::Number],
        21u8 => vec![AGICommandArgType::Variable],
        22u8 => vec![AGICommandArgType::Number],
        23u8 => vec![AGICommandArgType::Variable],
        24u8 => vec![AGICommandArgType::Variable],
        25u8 => vec![AGICommandArgType::Variable],
        26u8 => vec![],
        27u8 => vec![AGICommandArgType::Variable],
        28u8 => vec![AGICommandArgType::Variable],
        29u8 => vec![],
        30u8 => vec![AGICommandArgType::Number],
        31u8 => vec![AGICommandArgType::Variable],
        32u8 => vec![AGICommandArgType::Number],
        33u8 => vec![AGICommandArgType::Object],
        34u8 => vec![],
        35u8 => vec![AGICommandArgType::Object],
        36u8 => vec![AGICommandArgType::Object],
        37u8 => vec![AGICommandArgType::Object, AGICommandArgType::Number, AGICommandArgType::Number],
        38u8 => vec![AGICommandArgType::Object, AGICommandArgType::Variable, AGICommandArgType::Variable],
        39u8 => vec![AGICommandArgType::Object, AGICommandArgType::Variable, AGICommandArgType::Variable],
        40u8 => vec![AGICommandArgType::Object, AGICommandArgType::Variable, AGICommandArgType::Variable],
        41u8 => vec![AGICommandArgType::Object, AGICommandArgType::Number],
        42u8 => vec![AGICommandArgType::Object, AGICommandArgType::Variable],
        43u8 => vec![AGICommandArgType::Object, AGICommandArgType::Number],
        44u8 => vec![AGICommandArgType::Object, AGICommandArgType::Variable],
        45u8 => vec![AGICommandArgType::Object],
        46u8 => vec![AGICommandArgType::Object],
        47u8 => vec![AGICommandArgType::Object, AGICommandArgType::Number],
        48u8 => vec![AGICommandArgType::Object, AGICommandArgType::Variable],
        49u8 => vec![AGICommandArgType::Object, AGICommandArgType::Variable],
        50u8 => vec![AGICommandArgType::Object, AGICommandArgType::Variable],
        51u8 => vec![AGICommandArgType::Object, AGICommandArgType::Variable],
        52u8 => vec![AGICommandArgType::Object, AGICommandArgType::Variable],
        53u8 => vec![AGICommandArgType::Object, AGICommandArgType::Variable],
        54u8 => vec![AGICommandArgType::Object, AGICommandArgType::Number],
        55u8 => vec![AGICommandArgType::Object, AGICommandArgType::Variable],
        56u8 => vec![AGICommandArgType::Object],
        57u8 => vec![AGICommandArgType::Object, AGICommandArgType::Variable],
        58u8 => vec![AGICommandArgType::Object],
        59u8 => vec![AGICommandArgType::Object],
        60u8 => vec![AGICommandArgType::Object],
        61u8 => vec![AGICommandArgType::Object],
        62u8 => vec![AGICommandArgType::Object],
        63u8 => vec![AGICommandArgType::Number],
        64u8 => vec![AGICommandArgType::Object],
        65u8 => vec![AGICommandArgType::Object],
        66u8 => vec![AGICommandArgType::Object],
        67u8 => vec![AGICommandArgType::Object],
        68u8 => vec![AGICommandArgType::Object],
        69u8 => vec![AGICommandArgType::Object, AGICommandArgType::Object, AGICommandArgType::Variable],
        70u8 => vec![AGICommandArgType::Object],
        71u8 => vec![AGICommandArgType::Object],
        72u8 => vec![AGICommandArgType::Object],
        73u8 => vec![AGICommandArgType::Object, AGICommandArgType::Flag],
        74u8 => vec![AGICommandArgType::Object],
        75u8 => vec![AGICommandArgType::Object, AGICommandArgType::Flag],
        76u8 => vec![AGICommandArgType::Object, AGICommandArgType::Variable],
        77u8 => vec![AGICommandArgType::Object],
        78u8 => vec![AGICommandArgType::Object],
        79u8 => vec![AGICommandArgType::Object, AGICommandArgType::Variable],
        80u8 => vec![AGICommandArgType::Object, AGICommandArgType::Variable],
        81u8 => vec![AGICommandArgType::Object, AGICommandArgType::Number, AGICommandArgType::Number, AGICommandArgType::Number, AGICommandArgType::Flag],
        82u8 => vec![AGICommandArgType::Object, AGICommandArgType::Variable, AGICommandArgType::Variable, AGICommandArgType::Variable, AGICommandArgType::Flag],
        83u8 => vec![AGICommandArgType::Object, AGICommandArgType::Number, AGICommandArgType::Flag],
        84u8 => vec![AGICommandArgType::Object],
        85u8 => vec![AGICommandArgType::Object],
        86u8 => vec![AGICommandArgType::Object, AGICommandArgType::Variable],
        87u8 => vec![AGICommandArgType::Object, AGICommandArgType::Variable],
        88u8 => vec![AGICommandArgType::Object],
        89u8 => vec![AGICommandArgType::Object],
        90u8 => vec![AGICommandArgType::Number, AGICommandArgType::Number, AGICommandArgType::Number, AGICommandArgType::Number],
        91u8 => vec![],
        92u8 => vec![AGICommandArgType::Item],
        93u8 => vec![AGICommandArgType::Variable],
        94u8 => vec![AGICommandArgType::Item],
        95u8 => vec![AGICommandArgType::Item, AGICommandArgType::Variable],
        96u8 => vec![AGICommandArgType::Variable, AGICommandArgType::Variable],
        97u8 => vec![AGICommandArgType::Variable, AGICommandArgType::Variable],
        98u8 => vec![AGICommandArgType::Number],
        99u8 => vec![AGICommandArgType::Number, AGICommandArgType::Flag],
        100u8 => vec![],
        101u8 => vec![AGICommandArgType::Message],
        102u8 => vec![AGICommandArgType::Variable],
        103u8 => vec![AGICommandArgType::Number, AGICommandArgType::Number, AGICommandArgType::Message],
        104u8 => vec![AGICommandArgType::Variable, AGICommandArgType::Variable, AGICommandArgType::Variable],
        105u8 => vec![AGICommandArgType::Number, AGICommandArgType::Number, AGICommandArgType::Number],
        106u8 => vec![],
        107u8 => vec![],
        108u8 => vec![AGICommandArgType::Message],
        109u8 => vec![AGICommandArgType::Number, AGICommandArgType::Number],
        110u8 => vec![AGICommandArgType::Number],
        111u8 => vec![AGICommandArgType::Number, AGICommandArgType::Number, AGICommandArgType::Number],
        112u8 => vec![],
        113u8 => vec![],
        114u8 => vec![AGICommandArgType::String, AGICommandArgType::Message],
        115u8 => vec![AGICommandArgType::String, AGICommandArgType::Message, AGICommandArgType::Number, AGICommandArgType::Number, AGICommandArgType::Number],
        116u8 => vec![AGICommandArgType::String, AGICommandArgType::Word],
        117u8 => vec![AGICommandArgType::String],
        118u8 => vec![AGICommandArgType::Message, AGICommandArgType::Variable],
        119u8 => vec![],
        120u8 => vec![],
        121u8 => vec![AGICommandArgType::Number, AGICommandArgType::Number, AGICommandArgType::CtrlCode],
        122u8 => vec![AGICommandArgType::Number, AGICommandArgType::Number, AGICommandArgType::Number, AGICommandArgType::Number, AGICommandArgType::Number, AGICommandArgType::Number, AGICommandArgType::Number],
        123u8 => vec![AGICommandArgType::Variable, AGICommandArgType::Variable, AGICommandArgType::Variable, AGICommandArgType::Variable, AGICommandArgType::Variable, AGICommandArgType::Variable, AGICommandArgType::Variable],
        124u8 => vec![],
        125u8 => vec![],
        126u8 => vec![],
        127u8 => vec![],
        128u8 => vec![],
        129u8 => vec![AGICommandArgType::Number],
        130u8 => vec![AGICommandArgType::Number, AGICommandArgType::Number, AGICommandArgType::Variable],
        131u8 => vec![],
        132u8 => vec![],
        133u8 => vec![AGICommandArgType::Variable],
        134u8 => vec![AGICommandArgType::Number],
        135u8 => vec![],
        136u8 => vec![],
        137u8 => vec![],
        138u8 => vec![],
        139u8 => vec![],
        140u8 => vec![],
        141u8 => vec![],
        142u8 => vec![AGICommandArgType::Number],
        143u8 => vec![AGICommandArgType::Message],
        144u8 => vec![AGICommandArgType::Message],
        145u8 => vec![],
        146u8 => vec![],
        147u8 => vec![AGICommandArgType::Object, AGICommandArgType::Number, AGICommandArgType::Number],
        148u8 => vec![AGICommandArgType::Object, AGICommandArgType::Variable, AGICommandArgType::Variable],
        149u8 => vec![],
        150u8 => vec![AGICommandArgType::Number, AGICommandArgType::Number, AGICommandArgType::Number],
        151u8 => vec![AGICommandArgType::Message, AGICommandArgType::Number, AGICommandArgType::Number, AGICommandArgType::Number],
        152u8 => vec![AGICommandArgType::Variable, AGICommandArgType::Number, AGICommandArgType::Number, AGICommandArgType::Number],
        153u8 => vec![AGICommandArgType::Variable],
        154u8 => vec![AGICommandArgType::Number, AGICommandArgType::Number, AGICommandArgType::Number, AGICommandArgType::Number, AGICommandArgType::Number],
        155u8 => vec![AGICommandArgType::Number, AGICommandArgType::Number],
        156u8 => vec![AGICommandArgType::Message],
        157u8 => vec![AGICommandArgType::Message, AGICommandArgType::CtrlCode],
        158u8 => vec![],
        159u8 => vec![AGICommandArgType::CtrlCode],
        160u8 => vec![AGICommandArgType::CtrlCode],
        161u8 => vec![],
        162u8 => vec![AGICommandArgType::Variable],
        163u8 => vec![],
        164u8 => vec![],
        165u8 => vec![AGICommandArgType::Variable, AGICommandArgType::Number],
        166u8 => vec![AGICommandArgType::Variable, AGICommandArgType::Variable],
        167u8 => vec![AGICommandArgType::Variable, AGICommandArgType::Number],
        168u8 => vec![AGICommandArgType::Variable, AGICommandArgType::Variable],
        169u8 => vec![],
        170u8 => vec![AGICommandArgType::Number],
        171u8 => vec![],
        172u8 => vec![],
        173u8 => vec![],
        174u8 => vec![AGICommandArgType::Number],
        175u8 => vec![AGICommandArgType::Number],
        176u8 => vec![],
        177u8 => vec![AGICommandArgType::Number],
        178u8 => vec![],
        179u8 => vec![AGICommandArgType::Number, AGICommandArgType::Number, AGICommandArgType::Number, AGICommandArgType::Number],
        180u8 => vec![AGICommandArgType::Variable, AGICommandArgType::Variable],
        181u8 => vec![],
        182u8 => vec![],
        _ => Vec::new(),
    }
}

fn test_command_name_str(opcode: u8) -> (r: &'static str)
    ensures
        r@ == test_command_name(opcode),
{
    match opcode {
        1u8 => "equaln",
        2u8 => "equalv",
        3u8 => "lessn",
        4u8 => "lessv",
        5u8 => "greatern",
        6u8 => "greaterv",
        7u8 => "isset",
        8u8 => "isset.v",
        9u8 => "has",
        10u8 => "obj.in.room",
        11u8 => "posn",
        12u8 => "controller",
        13u8 => "have.key",
        14u8 => "said",
        15u8 => "compare.strings",
        16u8 => "obj.in.box",
        17u8 => "center.posn",
        18u8 => "right.posn",
        19u8 => "in.motion.using.mouse",
        _ => "",
    }
}

fn test_command_arg_vec(opcode: u8) -> (r: Vec<AGICommandArgType>)
    ensures
        r@ == test_command_arg_types(opcode),
{
    match opcode {
        1u8 => vec![AGICommandArgType::Variable, AGICommandArgType::Number],
        2u8 => vec![AGICommandArgType::Variable, AGICommandArgType::Variable],
        3u8 => vec![AGICommandArgType::Variable, AGICommandArgType::Number],
        4u8 => vec![AGICommandArgType::Variable, AGICommandArgType::Variable],
        5u8 => vec![AGICommandArgType::Variable, AGICommandArgType::Number],
        6u8 => vec![AGICommandArgType::Variable, AGICommandArgType::Variable],
        7u8 => vec![AGICommandArgType::Flag],
        8u8 => vec![AGICommandArgType::Variable],
        9u8 => vec![AGICommandArgType::Item],
        10u8 => vec![AGICommandArgType::Item, AGICommandArgType::Variable],
        11u8 => vec![AGICommandArgType::Object, AGICommandArgType::Number, AGICommandArgType::Number, AGICommandArgType::Number, AGICommandArgType::Number],
        12u8 => vec![AGICommandArgType::CtrlCode],
        13u8 => vec![],
        14u8 => vec![],
        15u8 => vec![AGICommandArgType::String, AGICommandArgType::String],
        16u8 => vec![AGICommandArgType::Object, AGICommandArgType::Number, AGICommandArgType::Number, AGICommandArgType::Number, AGICommandArgType::Number],
        17u8 => vec![AGICommandArgType::Object, AGICommandArgType::Number, AGICommandArgType::Number, AGICommandArgType::Number, AGICommandArgType::Number],
        18u8 => vec![AGICommandArgType::Object, AGICommandArgType::Number, AGICommandArgType::Number, AGICommandArgType::Number, AGICommandArgType::Number],
        19u8 => vec![],
        _ => Vec::new(),
    }
}

} // verus!
