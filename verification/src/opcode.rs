//! The instruction set: one byte per opcode, operands big-endian.

use vstd::prelude::*;

verus! {

/// The operations of the virtual machine, in the order of their byte codes.
#[derive(Debug, Clone, Copy, PartialEq, Eq, Structural)]
pub enum Opcode {
    Add,
    Subtract,
    Multiply,
    Divide,
    Modulus,
    Equal,
    NotEqual,
    Less,
    Greater,
    LessOrEqual,
    GreaterOrEqual,
    PushInt,
    PushFloat,
    PushTrue,
    PushFalse,
    PushNone,
    PushFunc,
    PushLoad,
    PushClosureLoad,
    PushList,
    PushPropLoad,
    PopStore,
    PopPrint,
    PopPropStore,
    PopClosureStore,
    Jump,
    JumpIfNot,
    Drop,
    Call,
    Return,
    Finish,
}

/// Number of opcodes; the valid opcode bytes are `0..OPCODE_COUNT`.
pub const OPCODE_COUNT: u8 = 31;

impl Opcode {
    /// The byte that encodes this opcode.
    pub open spec fn byte(self) -> u8 {
        match self {
            Opcode::Add => 0,
            Opcode::Subtract => 1,
            Opcode::Multiply => 2,
            Opcode::Divide => 3,
            Opcode::Modulus => 4,
            Opcode::Equal => 5,
            Opcode::NotEqual => 6,
            Opcode::Less => 7,
            Opcode::Greater => 8,
            Opcode::LessOrEqual => 9,
            Opcode::GreaterOrEqual => 10,
            Opcode::PushInt => 11,
            Opcode::PushFloat => 12,
            Opcode::PushTrue => 13,
            Opcode::PushFalse => 14,
            Opcode::PushNone => 15,
            Opcode::PushFunc => 16,
            Opcode::PushLoad => 17,
            Opcode::PushClosureLoad => 18,
            Opcode::PushList => 19,
            Opcode::PushPropLoad => 20,
            Opcode::PopStore => 21,
            Opcode::PopPrint => 22,
            Opcode::PopPropStore => 23,
            Opcode::PopClosureStore => 24,
            Opcode::Jump => 25,
            Opcode::JumpIfNot => 26,
            Opcode::Drop => 27,
            Opcode::Call => 28,
            Opcode::Return => 29,
            Opcode::Finish => 30,
        }
    }

    /// The opcode that a byte encodes, if any.
    pub open spec fn of_byte(byte: u8) -> Option<Opcode> {
        if byte == 0 {
            Some(Opcode::Add)
        } else if byte == 1 {
            Some(Opcode::Subtract)
        } else if byte == 2 {
            Some(Opcode::Multiply)
        } else if byte == 3 {
            Some(Opcode::Divide)
        } else if byte == 4 {
            Some(Opcode::Modulus)
        } else if byte == 5 {
            Some(Opcode::Equal)
        } else if byte == 6 {
            Some(Opcode::NotEqual)
        } else if byte == 7 {
            Some(Opcode::Less)
        } else if byte == 8 {
            Some(Opcode::Greater)
        } else if byte == 9 {
            Some(Opcode::LessOrEqual)
        } else if byte == 10 {
            Some(Opcode::GreaterOrEqual)
        } else if byte == 11 {
            Some(Opcode::PushInt)
        } else if byte == 12 {
            Some(Opcode::PushFloat)
        } else if byte == 13 {
            Some(Opcode::PushTrue)
        } else if byte == 14 {
            Some(Opcode::PushFalse)
        } else if byte == 15 {
            Some(Opcode::PushNone)
        } else if byte == 16 {
            Some(Opcode::PushFunc)
        } else if byte == 17 {
            Some(Opcode::PushLoad)
        } else if byte == 18 {
            Some(Opcode::PushClosureLoad)
        } else if byte == 19 {
            Some(Opcode::PushList)
        } else if byte == 20 {
            Some(Opcode::PushPropLoad)
        } else if byte == 21 {
            Some(Opcode::PopStore)
        } else if byte == 22 {
            Some(Opcode::PopPrint)
        } else if byte == 23 {
            Some(Opcode::PopPropStore)
        } else if byte == 24 {
            Some(Opcode::PopClosureStore)
        } else if byte == 25 {
            Some(Opcode::Jump)
        } else if byte == 26 {
            Some(Opcode::JumpIfNot)
        } else if byte == 27 {
            Some(Opcode::Drop)
        } else if byte == 28 {
            Some(Opcode::Call)
        } else if byte == 29 {
            Some(Opcode::Return)
        } else if byte == 30 {
            Some(Opcode::Finish)
        } else {
            None
        }
    }

    /// Number of operand bytes that follow the opcode byte.
    pub open spec fn operand_width(self) -> nat {
        match self {
            Opcode::PushInt | Opcode::PushFloat => 8,
            Opcode::PushFunc | Opcode::PushList | Opcode::Jump | Opcode::JumpIfNot => 4,
            Opcode::PushLoad
            | Opcode::PopStore
            | Opcode::PushClosureLoad
            | Opcode::PopClosureStore
            | Opcode::PushPropLoad
            | Opcode::PopPropStore
            | Opcode::Drop
            | Opcode::Call => 1,
            _ => 0,
        }
    }

    /// Encodes the opcode as its byte.
    pub fn to_byte(self) -> (byte: u8)
        ensures
            byte == self.byte(),
            byte < OPCODE_COUNT,
    {
        match self {
            Opcode::Add => 0,
            Opcode::Subtract => 1,
            Opcode::Multiply => 2,
            Opcode::Divide => 3,
            Opcode::Modulus => 4,
            Opcode::Equal => 5,
            Opcode::NotEqual => 6,
            Opcode::Less => 7,
            Opcode::Greater => 8,
            Opcode::LessOrEqual => 9,
            Opcode::GreaterOrEqual => 10,
            Opcode::PushInt => 11,
            Opcode::PushFloat => 12,
            Opcode::PushTrue => 13,
            Opcode::PushFalse => 14,
            Opcode::PushNone => 15,
            Opcode::PushFunc => 16,
            Opcode::PushLoad => 17,
            Opcode::PushClosureLoad => 18,
            Opcode::PushList => 19,
            Opcode::PushPropLoad => 20,
            Opcode::PopStore => 21,
            Opcode::PopPrint => 22,
            Opcode::PopPropStore => 23,
            Opcode::PopClosureStore => 24,
            Opcode::Jump => 25,
            Opcode::JumpIfNot => 26,
            Opcode::Drop => 27,
            Opcode::Call => 28,
            Opcode::Return => 29,
            Opcode::Finish => 30,
        }
    }

    /// Decodes a byte; `None` for a byte that is no opcode.
    pub fn from_byte(byte: u8) -> (opcode: Option<Opcode>)
        ensures
            opcode == Opcode::of_byte(byte),
            opcode is Some <==> byte < OPCODE_COUNT,
            opcode matches Some(op) ==> op.byte() == byte,
    {
        match byte {
            0 => Some(Opcode::Add),
            1 => Some(Opcode::Subtract),
            2 => Some(Opcode::Multiply),
            3 => Some(Opcode::Divide),
            4 => Some(Opcode::Modulus),
            5 => Some(Opcode::Equal),
            6 => Some(Opcode::NotEqual),
            7 => Some(Opcode::Less),
            8 => Some(Opcode::Greater),
            9 => Some(Opcode::LessOrEqual),
            10 => Some(Opcode::GreaterOrEqual),
            11 => Some(Opcode::PushInt),
            12 => Some(Opcode::PushFloat),
            13 => Some(Opcode::PushTrue),
            14 => Some(Opcode::PushFalse),
            15 => Some(Opcode::PushNone),
            16 => Some(Opcode::PushFunc),
            17 => Some(Opcode::PushLoad),
            18 => Some(Opcode::PushClosureLoad),
            19 => Some(Opcode::PushList),
            20 => Some(Opcode::PushPropLoad),
            21 => Some(Opcode::PopStore),
            22 => Some(Opcode::PopPrint),
            23 => Some(Opcode::PopPropStore),
            24 => Some(Opcode::PopClosureStore),
            25 => Some(Opcode::Jump),
            26 => Some(Opcode::JumpIfNot),
            27 => Some(Opcode::Drop),
            28 => Some(Opcode::Call),
            29 => Some(Opcode::Return),
            30 => Some(Opcode::Finish),
            _ => None,
        }
    }

    /// Number of operand bytes that follow the opcode byte.
    pub fn operand_len(self) -> (width: usize)
        ensures
            width == self.operand_width(),
            width <= 8,
    {
        match self {
            Opcode::PushInt | Opcode::PushFloat => 8,
            Opcode::PushFunc | Opcode::PushList | Opcode::Jump | Opcode::JumpIfNot => 4,
            Opcode::PushLoad
            | Opcode::PopStore
            | Opcode::PushClosureLoad
            | Opcode::PopClosureStore
            | Opcode::PushPropLoad
            | Opcode::PopPropStore
            | Opcode::Drop
            | Opcode::Call => 1,
            _ => 0,
        }
    }

    /// The mnemonic of the opcode, as a disassembly listing shows it.
    pub open spec fn mnemonic(self) -> Seq<char> {
        match self {
            Opcode::Add => "Add"@,
            Opcode::Subtract => "Subtract"@,
            Opcode::Multiply => "Multiply"@,
            Opcode::Divide => "Divide"@,
            Opcode::Modulus => "Modulus"@,
            Opcode::Equal => "Equal"@,
            Opcode::NotEqual => "NotEqual"@,
            Opcode::Less => "Less"@,
            Opcode::Greater => "Greater"@,
            Opcode::LessOrEqual => "LessOrEqual"@,
            Opcode::GreaterOrEqual => "GreaterOrEqual"@,
            Opcode::PushInt => "PushInt"@,
            Opcode::PushFloat => "PushFloat"@,
            Opcode::PushTrue => "PushTrue"@,
            Opcode::PushFalse => "PushFalse"@,
            Opcode::PushNone => "PushNone"@,
            Opcode::PushFunc => "PushFunc"@,
            Opcode::PushLoad => "PushLoad"@,
            Opcode::PushClosureLoad => "PushClosureLoad"@,
            Opcode::PushList => "PushList"@,
            Opcode::PushPropLoad => "PushPropLoad"@,
            Opcode::PopStore => "PopStore"@,
            Opcode::PopPrint => "PopPrint"@,
            Opcode::PopPropStore => "PopPropStore"@,
            Opcode::PopClosureStore => "PopClosureStore"@,
            Opcode::Jump => "Jump"@,
            Opcode::JumpIfNot => "JumpIfNot"@,
            Opcode::Drop => "Drop"@,
            Opcode::Call => "Call"@,
            Opcode::Return => "Return"@,
            Opcode::Finish => "Finish"@,
        }
    }

    /// The mnemonic of the opcode, as a disassembly listing shows it.
    pub fn name(self) -> (name: &'static str)
        ensures
            name@ == self.mnemonic(),
    {
        match self {
            Opcode::Add => "Add",
            Opcode::Subtract => "Subtract",
            Opcode::Multiply => "Multiply",
            Opcode::Divide => "Divide",
            Opcode::Modulus => "Modulus",
            Opcode::Equal => "Equal",
            Opcode::NotEqual => "NotEqual",
            Opcode::Less => "Less",
            Opcode::Greater => "Greater",
            Opcode::LessOrEqual => "LessOrEqual",
            Opcode::GreaterOrEqual => "GreaterOrEqual",
            Opcode::PushInt => "PushInt",
            Opcode::PushFloat => "PushFloat",
            Opcode::PushTrue => "PushTrue",
            Opcode::PushFalse => "PushFalse",
            Opcode::PushNone => "PushNone",
            Opcode::PushFunc => "PushFunc",
            Opcode::PushLoad => "PushLoad",
            Opcode::PushClosureLoad => "PushClosureLoad",
            Opcode::PushList => "PushList",
            Opcode::PushPropLoad => "PushPropLoad",
            Opcode::PopStore => "PopStore",
            Opcode::PopPrint => "PopPrint",
            Opcode::PopPropStore => "PopPropStore",
            Opcode::PopClosureStore => "PopClosureStore",
            Opcode::Jump => "Jump",
            Opcode::JumpIfNot => "JumpIfNot",
            Opcode::Drop => "Drop",
            Opcode::Call => "Call",
            Opcode::Return => "Return",
            Opcode::Finish => "Finish",
        }
    }
}

/// Encoding an opcode and decoding the byte gives the opcode back.
pub proof fn lemma_opcode_round_trip(op: Opcode)
    ensures
        Opcode::of_byte(op.byte()) == Some(op),
        op.byte() < OPCODE_COUNT,
{
}

/// Decoding a byte and encoding the opcode gives the byte back, and exactly
/// the bytes below `OPCODE_COUNT` decode.
pub proof fn lemma_byte_round_trip(byte: u8)
    ensures
        Opcode::of_byte(byte) is Some <==> byte < OPCODE_COUNT,
        Opcode::of_byte(byte) matches Some(op) ==> op.byte() == byte,
{
}

} // verus!
