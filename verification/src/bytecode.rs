//! Bytecode: opcodes, instructions and compiled scripts.
use vstd::prelude::*;
use crate::symbol::LocalTable;
use crate::types::Type;

verus! {

/// Script engine opcodes. [`Opcode::code`] gives each one's wire value.
#[derive(Debug, Clone, Copy, PartialEq, Eq, Structural)]
pub enum Opcode {
    PushConstantInt,
    PushVarp,
    PopVarp,
    PushConstantString,
    PushVarn,
    PopVarn,
    Branch,
    BranchNot,
    BranchEquals,
    BranchLessThan,
    BranchGreaterThan,
    PushVars,
    PopVars,
    Return,
    Gosub,
    Jump,
    Switch,
    PushVarbit,
    PopVarbit,
    BranchLessThanOrEquals,
    BranchGreaterThanOrEquals,
    PushIntLocal,
    PopIntLocal,
    PushStringLocal,
    PopStringLocal,
    JoinString,
    PopIntDiscard,
    PopStringDiscard,
    GosubWithParams,
    JumpWithParams,
    DefineArray,
    PushArrayInt,
    PopArrayInt,
    PushConstantLong,
    PushLongLocal,
    PopLongLocal,
    PopLongDiscard,
    LongBranchNot,
    LongBranchEquals,
    LongBranchLessThan,
    LongBranchGreaterThan,
    LongBranchLessThanOrEquals,
    LongBranchGreaterThanOrEquals,
    ObjBranchEquals,
    ObjBranchNot,
    Add,
    Sub,
    Multiply,
    Divide,
    Random,
    RandomInc,
    Interpolate,
    AddPercent,
    SetBit,
    ClearBit,
    TestBit,
    Modulo,
    Pow,
    InvPow,
    And,
    Or,
    Min,
    Max,
    Scale,
    BitCount,
    ToggleBit,
    SetBitRange,
    ClearBitRange,
    GetBitRange,
    SetBitRangeToVal,
    SinDeg,
    CosDeg,
    Atan2Deg,
    Abs,
    Command,
    LineNumber,
}

/// The wire value of each opcode.
pub open spec fn opcode_value(op: Opcode) -> u16 {
    match op {
        Opcode::PushConstantInt => 0u16,
        Opcode::PushVarp => 1u16,
        Opcode::PopVarp => 2u16,
        Opcode::PushConstantString => 3u16,
        Opcode::PushVarn => 4u16,
        Opcode::PopVarn => 5u16,
        Opcode::Branch => 6u16,
        Opcode::BranchNot => 7u16,
        Opcode::BranchEquals => 8u16,
        Opcode::BranchLessThan => 9u16,
        Opcode::BranchGreaterThan => 10u16,
        Opcode::PushVars => 11u16,
        Opcode::PopVars => 12u16,
        Opcode::Return => 21u16,
        Opcode::Gosub => 22u16,
        Opcode::Jump => 23u16,
        Opcode::Switch => 24u16,
        Opcode::PushVarbit => 25u16,
        Opcode::PopVarbit => 27u16,
        Opcode::BranchLessThanOrEquals => 31u16,
        Opcode::BranchGreaterThanOrEquals => 32u16,
        Opcode::PushIntLocal => 33u16,
        Opcode::PopIntLocal => 34u16,
        Opcode::PushStringLocal => 35u16,
        Opcode::PopStringLocal => 36u16,
        Opcode::JoinString => 37u16,
        Opcode::PopIntDiscard => 38u16,
        Opcode::PopStringDiscard => 39u16,
        Opcode::GosubWithParams => 40u16,
        Opcode::JumpWithParams => 41u16,
        Opcode::DefineArray => 44u16,
        Opcode::PushArrayInt => 45u16,
        Opcode::PopArrayInt => 46u16,
        Opcode::PushConstantLong => 54u16,
        Opcode::PushLongLocal => 55u16,
        Opcode::PopLongLocal => 56u16,
        Opcode::PopLongDiscard => 57u16,
        Opcode::LongBranchNot => 68u16,
        Opcode::LongBranchEquals => 69u16,
        Opcode::LongBranchLessThan => 70u16,
        Opcode::LongBranchGreaterThan => 71u16,
        Opcode::LongBranchLessThanOrEquals => 72u16,
        Opcode::LongBranchGreaterThanOrEquals => 73u16,
        Opcode::ObjBranchEquals => 86u16,
        Opcode::ObjBranchNot => 87u16,
        Opcode::Add => 4600u16,
        Opcode::Sub => 4601u16,
        Opcode::Multiply => 4602u16,
        Opcode::Divide => 4603u16,
        Opcode::Random => 4604u16,
        Opcode::RandomInc => 4605u16,
        Opcode::Interpolate => 4606u16,
        Opcode::AddPercent => 4607u16,
        Opcode::SetBit => 4608u16,
        Opcode::ClearBit => 4609u16,
        Opcode::TestBit => 4610u16,
        Opcode::Modulo => 4611u16,
        Opcode::Pow => 4612u16,
        Opcode::InvPow => 4613u16,
        Opcode::And => 4614u16,
        Opcode::Or => 4615u16,
        Opcode::Min => 4616u16,
        Opcode::Max => 4617u16,
        Opcode::Scale => 4618u16,
        Opcode::BitCount => 4619u16,
        Opcode::ToggleBit => 4620u16,
        Opcode::SetBitRange => 4621u16,
        Opcode::ClearBitRange => 4622u16,
        Opcode::GetBitRange => 4623u16,
        Opcode::SetBitRangeToVal => 4624u16,
        Opcode::SinDeg => 4625u16,
        Opcode::CosDeg => 4626u16,
        Opcode::Atan2Deg => 4627u16,
        Opcode::Abs => 4628u16,
        Opcode::Command => 65535u16,
        Opcode::LineNumber => 65534u16,
    }
}

impl Opcode {
    /// The opcode's value in the engine's wire format.
    pub fn code(self) -> (c: u16)
        ensures
            c == opcode_value(self),
    {
        match self {
            Opcode::PushConstantInt => 0,
            Opcode::PushVarp => 1,
            Opcode::PopVarp => 2,
            Opcode::PushConstantString => 3,
            Opcode::PushVarn => 4,
            Opcode::PopVarn => 5,
            Opcode::Branch => 6,
            Opcode::BranchNot => 7,
            Opcode::BranchEquals => 8,
            Opcode::BranchLessThan => 9,
            Opcode::BranchGreaterThan => 10,
            Opcode::PushVars => 11,
            Opcode::PopVars => 12,
            Opcode::Return => 21,
            Opcode::Gosub => 22,
            Opcode::Jump => 23,
            Opcode::Switch => 24,
            Opcode::PushVarbit => 25,
            Opcode::PopVarbit => 27,
            Opcode::BranchLessThanOrEquals => 31,
            Opcode::BranchGreaterThanOrEquals => 32,
            Opcode::PushIntLocal => 33,
            Opcode::PopIntLocal => 34,
            Opcode::PushStringLocal => 35,
            Opcode::PopStringLocal => 36,
            Opcode::JoinString => 37,
            Opcode::PopIntDiscard => 38,
            Opcode::PopStringDiscard => 39,
            Opcode::GosubWithParams => 40,
            Opcode::JumpWithParams => 41,
            Opcode::DefineArray => 44,
            Opcode::PushArrayInt => 45,
            Opcode::PopArrayInt => 46,
            Opcode::PushConstantLong => 54,
            Opcode::PushLongLocal => 55,
            Opcode::PopLongLocal => 56,
            Opcode::PopLongDiscard => 57,
            Opcode::LongBranchNot => 68,
            Opcode::LongBranchEquals => 69,
            Opcode::LongBranchLessThan => 70,
            Opcode::LongBranchGreaterThan => 71,
            Opcode::LongBranchLessThanOrEquals => 72,
            Opcode::LongBranchGreaterThanOrEquals => 73,
            Opcode::ObjBranchEquals => 86,
            Opcode::ObjBranchNot => 87,
            Opcode::Add => 4600,
            Opcode::Sub => 4601,
            Opcode::Multiply => 4602,
            Opcode::Divide => 4603,
            Opcode::Random => 4604,
            Opcode::RandomInc => 4605,
            Opcode::Interpolate => 4606,
            Opcode::AddPercent => 4607,
            Opcode::SetBit => 4608,
            Opcode::ClearBit => 4609,
            Opcode::TestBit => 4610,
            Opcode::Modulo => 4611,
            Opcode::Pow => 4612,
            Opcode::InvPow => 4613,
            Opcode::And => 4614,
            Opcode::Or => 4615,
            Opcode::Min => 4616,
            Opcode::Max => 4617,
            Opcode::Scale => 4618,
            Opcode::BitCount => 4619,
            Opcode::ToggleBit => 4620,
            Opcode::SetBitRange => 4621,
            Opcode::ClearBitRange => 4622,
            Opcode::GetBitRange => 4623,
            Opcode::SetBitRangeToVal => 4624,
            Opcode::SinDeg => 4625,
            Opcode::CosDeg => 4626,
            Opcode::Atan2Deg => 4627,
            Opcode::Abs => 4628,
            Opcode::Command => 65535,
            Opcode::LineNumber => 65534,
        }
    }
}

/// The operand (data) of an instruction.
#[derive(Debug, Clone)]
pub enum Operand {
    NoValue,
    Int(i32),
    Long(i64),
    Str(String),
    /// Jump target as an instruction index within the script.
    JumpTarget(usize),
    /// Switch table: (case value, jump target) pairs.
    SwitchTable(Vec<(i32, usize)>),
    /// String join with N parts.
    StringCount(u32),
    /// Array definition: (variable id, element type character).
    ArrayDef(i32, u8),
}

/// A single bytecode instruction, with the source line it was emitted for.
#[derive(Debug, Clone)]
pub struct Instruction {
    pub opcode: Opcode,
    pub operand: Operand,
    pub line: Option<u32>,
}

impl Instruction {
    pub fn new(opcode: Opcode, operand: Operand) -> (i: Self)
        ensures
            i == (Instruction { opcode, operand, line: None }),
    {
        Instruction { opcode, operand, line: None }
    }

    pub fn with_line(opcode: Opcode, operand: Operand, line: u32) -> (i: Self)
        ensures
            i == (Instruction { opcode, operand, line: Some(line) }),
    {
        Instruction { opcode, operand, line: Some(line) }
    }

    pub fn simple(opcode: Opcode) -> (i: Self)
        ensures
            i == (Instruction { opcode, operand: Operand::NoValue, line: None }),
    {
        Instruction { opcode, operand: Operand::NoValue, line: None }
    }

    pub fn push_int(value: i32) -> (i: Self)
        ensures
            i == (Instruction { opcode: Opcode::PushConstantInt, operand: Operand::Int(value), line: None }),
    {
        Instruction::new(Opcode::PushConstantInt, Operand::Int(value))
    }

    pub fn push_string(value: String) -> (i: Self)
        ensures
            i == (Instruction { opcode: Opcode::PushConstantString, operand: Operand::Str(value), line: None }),
    {
        Instruction::new(Opcode::PushConstantString, Operand::Str(value))
    }

    pub fn push_long(value: i64) -> (i: Self)
        ensures
            i == (Instruction { opcode: Opcode::PushConstantLong, operand: Operand::Long(value), line: None }),
    {
        Instruction::new(Opcode::PushConstantLong, Operand::Long(value))
    }

    pub fn jump(target: usize) -> (i: Self)
        ensures
            i == (Instruction { opcode: Opcode::Branch, operand: Operand::JumpTarget(target), line: None }),
    {
        Instruction::new(Opcode::Branch, Operand::JumpTarget(target))
    }

    pub fn branch_not(target: usize) -> (i: Self)
        ensures
            i == (Instruction { opcode: Opcode::BranchNot, operand: Operand::JumpTarget(target), line: None }),
    {
        Instruction::new(Opcode::BranchNot, Operand::JumpTarget(target))
    }

    pub fn branch_equals(target: usize) -> (i: Self)
        ensures
            i == (Instruction { opcode: Opcode::BranchEquals, operand: Operand::JumpTarget(target), line: None }),
    {
        Instruction::new(Opcode::BranchEquals, Operand::JumpTarget(target))
    }

    pub fn branch_less_than(target: usize) -> (i: Self)
        ensures
            i == (Instruction { opcode: Opcode::BranchLessThan, operand: Operand::JumpTarget(target), line: None }),
    {
        Instruction::new(Opcode::BranchLessThan, Operand::JumpTarget(target))
    }

    pub fn branch_greater_than(target: usize) -> (i: Self)
        ensures
            i == (Instruction { opcode: Opcode::BranchGreaterThan, operand: Operand::JumpTarget(target), line: None }),
    {
        Instruction::new(Opcode::BranchGreaterThan, Operand::JumpTarget(target))
    }

    pub fn branch_less_than_or_equals(target: usize) -> (i: Self)
        ensures
            i == (Instruction { opcode: Opcode::BranchLessThanOrEquals, operand: Operand::JumpTarget(target), line: None }),
    {
        Instruction::new(Opcode::BranchLessThanOrEquals, Operand::JumpTarget(target))
    }

    pub fn branch_greater_than_or_equals(target: usize) -> (i: Self)
        ensures
            i == (Instruction { opcode: Opcode::BranchGreaterThanOrEquals, operand: Operand::JumpTarget(target), line: None }),
    {
        Instruction::new(Opcode::BranchGreaterThanOrEquals, Operand::JumpTarget(target))
    }

    pub fn gosub(script_id: i32) -> (i: Self)
        ensures
            i == (Instruction { opcode: Opcode::Gosub, operand: Operand::Int(script_id), line: None }),
    {
        Instruction::new(Opcode::Gosub, Operand::Int(script_id))
    }

    pub fn gosub_with_params(script_id: i32) -> (i: Self)
        ensures
            i == (Instruction { opcode: Opcode::GosubWithParams, operand: Operand::Int(script_id), line: None }),
    {
        Instruction::new(Opcode::GosubWithParams, Operand::Int(script_id))
    }

    pub fn push_int_local(var_id: i32) -> (i: Self)
        ensures
            i == (Instruction { opcode: Opcode::PushIntLocal, operand: Operand::Int(var_id), line: None }),
    {
        Instruction::new(Opcode::PushIntLocal, Operand::Int(var_id))
    }

    pub fn pop_int_local(var_id: i32) -> (i: Self)
        ensures
            i == (Instruction { opcode: Opcode::PopIntLocal, operand: Operand::Int(var_id), line: None }),
    {
        Instruction::new(Opcode::PopIntLocal, Operand::Int(var_id))
    }

    pub fn push_string_local(var_id: i32) -> (i: Self)
        ensures
            i == (Instruction { opcode: Opcode::PushStringLocal, operand: Operand::Int(var_id), line: None }),
    {
        Instruction::new(Opcode::PushStringLocal, Operand::Int(var_id))
    }

    pub fn pop_string_local(var_id: i32) -> (i: Self)
        ensures
            i == (Instruction { opcode: Opcode::PopStringLocal, operand: Operand::Int(var_id), line: None }),
    {
        Instruction::new(Opcode::PopStringLocal, Operand::Int(var_id))
    }

    pub fn push_long_local(var_id: i32) -> (i: Self)
        ensures
            i == (Instruction { opcode: Opcode::PushLongLocal, operand: Operand::Int(var_id), line: None }),
    {
        Instruction::new(Opcode::PushLongLocal, Operand::Int(var_id))
    }

    pub fn pop_long_local(var_id: i32) -> (i: Self)
        ensures
            i == (Instruction { opcode: Opcode::PopLongLocal, operand: Operand::Int(var_id), line: None }),
    {
        Instruction::new(Opcode::PopLongLocal, Operand::Int(var_id))
    }

    pub fn join_string(count: u32) -> (i: Self)
        ensures
            i == (Instruction { opcode: Opcode::JoinString, operand: Operand::StringCount(count), line: None }),
    {
        Instruction::new(Opcode::JoinString, Operand::StringCount(count))
    }

}

/// Compiled bytecode for a single script.
#[derive(Debug)]
pub struct CompiledScript {
    pub name: String,
    pub id: i32,
    pub trigger: String,
    pub source_path: String,
    /// Lookup key for engine dispatch (-1 if not applicable).
    pub lookup_key: i32,
    pub param_types: Vec<Type>,
    pub instructions: Vec<Instruction>,
    pub local_table: LocalTable,
    pub int_local_count: u16,
    pub string_local_count: u16,
    pub long_local_count: u16,
    pub int_arg_count: u16,
    pub string_arg_count: u16,
    pub long_arg_count: u16,
    pub switch_tables: Vec<Vec<(i32, usize)>>,
}

impl CompiledScript {
    pub fn new(name: String, id: i32) -> (s: Self)
        ensures
            s.name == name,
            s.id == id,
            s.trigger@.len() == 0,
            s.source_path@.len() == 0,
            s.lookup_key == -1,
            s.param_types@.len() == 0,
            s.instructions@.len() == 0,
            s.local_table@.len() == 0,
            s.int_local_count == 0,
            s.string_local_count == 0,
            s.long_local_count == 0,
            s.int_arg_count == 0,
            s.string_arg_count == 0,
            s.long_arg_count == 0,
            s.switch_tables@.len() == 0,
    {
        Self {
            name,
            id,
            trigger: String::new(),
            source_path: String::new(),
            lookup_key: -1,
            param_types: Vec::new(),
            instructions: Vec::new(),
            local_table: LocalTable::new(),
            int_local_count: 0,
            string_local_count: 0,
            long_local_count: 0,
            int_arg_count: 0,
            string_arg_count: 0,
            long_arg_count: 0,
            switch_tables: Vec::new(),
        }
    }

    /// Appends an instruction.
    pub fn push(&mut self, instruction: Instruction)
        ensures
            final(self).instructions@ == old(self).instructions@.push(instruction),
            final(self).name == old(self).name,
            final(self).id == old(self).id,
            final(self).trigger == old(self).trigger,
            final(self).source_path == old(self).source_path,
            final(self).local_table == old(self).local_table,
            final(self).lookup_key == old(self).lookup_key,
            final(self).param_types == old(self).param_types,
    {
        self.instructions.push(instruction);
    }

    /// The number of instructions.
    pub fn len(&self) -> (n: usize)
        ensures
            n == self.instructions@.len(),
    {
        self.instructions.len()
    }

    /// Whether the script has no instructions.
    pub fn is_empty(&self) -> (b: bool)
        ensures
            b == (self.instructions@.len() == 0),
    {
        self.instructions.len() == 0
    }

    /// Points the jump at `index` to `target`, keeping its opcode and line.
    pub fn patch_jump(&mut self, index: usize, target: usize)
        requires
            index < old(self).instructions@.len(),
        ensures
            final(self).instructions@ == old(self).instructions@.update(
                index as int,
                Instruction {
                    operand: Operand::JumpTarget(target),
                    ..old(self).instructions@[index as int]
                },
            ),
            final(self).name == old(self).name,
            final(self).id == old(self).id,
            final(self).trigger == old(self).trigger,
            final(self).source_path == old(self).source_path,
            final(self).local_table == old(self).local_table,
            final(self).lookup_key == old(self).lookup_key,
            final(self).param_types == old(self).param_types,
    {
        let opcode = self.instructions[index].opcode;
        let line = self.instructions[index].line;
        self.instructions.set(index, Instruction { opcode, operand: Operand::JumpTarget(target), line });
    }
}

/// Whether an operand's jump targets are at most `n`.
pub open spec fn operand_within(o: Operand, n: int) -> bool {
    match o {
        Operand::JumpTarget(t) => t <= n,
        Operand::SwitchTable(table) => forall|j: int| 0 <= j < table@.len() ==> (#[trigger] table@[j]).1 <= n,
        _ => true,
    }
}

/// Whether every jump target among `ins` is an instruction index or the end: at most `ins.len()`.
pub open spec fn targets_within(ins: Seq<Instruction>) -> bool {
    forall|i: int| 0 <= i < ins.len() ==> operand_within(#[trigger] ins[i].operand, ins.len() as int)
}

} // verus!
