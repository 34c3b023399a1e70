//! Bytecode chunks: the instruction stream, a parallel table of source
//! lines, and the pool of constants that instructions refer to.

use vstd::prelude::*;
use std::rc::Rc;

verus! {

/// Instruction set of the bytecode machine.
#[derive(Debug, Clone, Copy, PartialEq, Eq, Structural)]
pub enum OpCode {
    /// Push `constants[operand]`. Operand: 1-byte index.
    Constant,
    /// Push `nil`.
    Nil,
    /// Push `true`.
    True,
    /// Push `false`.
    False,
    /// Pop and discard the top of the stack.
    Pop,
    /// Read local slot. Operand: 1-byte slot index.
    GetLocal,
    /// Write local slot. Operand: 1-byte slot index.
    SetLocal,
    /// Read global by name. Operand: 1-byte constant index.
    GetGlobal,
    /// Define new global. Operand: 1-byte constant index (name).
    DefineGlobal,
    /// Assign existing global. Operand: 1-byte constant index (name).
    SetGlobal,
    /// Read upvalue. Operand: 1-byte upvalue slot.
    GetUpvalue,
    /// Write upvalue. Operand: 1-byte upvalue slot.
    SetUpvalue,
    /// Read instance field. Operand: 1-byte constant index (name).
    GetProperty,
    /// Write instance field. Operand: 1-byte constant index (name).
    SetProperty,
    /// Read superclass method. Operand: 1-byte constant index (name).
    GetSuper,
    /// `==`.
    Equal,
    /// `>`.
    Greater,
    /// `<`.
    Less,
    /// `+` (numbers, and string concatenation).
    Add,
    /// `-`.
    Subtract,
    /// `*`.
    Multiply,
    /// `/`.
    Divide,
    /// Boolean `!`.
    Not,
    /// Unary `-`.
    Negate,
    /// `print` statement.
    Print,
    /// Unconditional forward jump. Operand: 2-byte big-endian offset.
    Jump,
    /// Forward jump if the top of the stack is falsey. Operand: 2-byte big-endian offset.
    JumpIfFalse,
    /// Backward jump. Operand: 2-byte big-endian offset subtracted from the position after the operand.
    Loop,
    /// Function call. Operand: 1-byte argument count.
    Call,
    /// Method invocation shortcut. Operands: 1-byte name constant, 1-byte argument count.
    Invoke,
    /// `super.method(...)` shortcut. Operands: 1-byte name constant, 1-byte argument count.
    SuperInvoke,
    /// Wrap a function constant into a closure. Operand: 1-byte constant index, then one `(is_local, index)` byte pair per upvalue of the function.
    Closure,
    /// Hoist the top-of-stack local into a heap upvalue.
    CloseUpvalue,
    /// Return from the current function.
    Return,
    /// Declare a class. Operand: 1-byte constant index (name).
    Class,
    /// Link the superclass (below the top) into the subclass (top).
    Inherit,
    /// Attach a method to the class below it. Operand: 1-byte constant index.
    Method,
}

/// The byte that encodes each opcode (0 to 36, in declaration order).
pub open spec fn spec_op_byte(op: OpCode) -> u8 {
    match op {
            OpCode::Constant => 0,
            OpCode::Nil => 1,
            OpCode::True => 2,
            OpCode::False => 3,
            OpCode::Pop => 4,
            OpCode::GetLocal => 5,
            OpCode::SetLocal => 6,
            OpCode::GetGlobal => 7,
            OpCode::DefineGlobal => 8,
            OpCode::SetGlobal => 9,
            OpCode::GetUpvalue => 10,
            OpCode::SetUpvalue => 11,
            OpCode::GetProperty => 12,
            OpCode::SetProperty => 13,
            OpCode::GetSuper => 14,
            OpCode::Equal => 15,
            OpCode::Greater => 16,
            OpCode::Less => 17,
            OpCode::Add => 18,
            OpCode::Subtract => 19,
            OpCode::Multiply => 20,
            OpCode::Divide => 21,
            OpCode::Not => 22,
            OpCode::Negate => 23,
            OpCode::Print => 24,
            OpCode::Jump => 25,
            OpCode::JumpIfFalse => 26,
            OpCode::Loop => 27,
            OpCode::Call => 28,
            OpCode::Invoke => 29,
            OpCode::SuperInvoke => 30,
            OpCode::Closure => 31,
            OpCode::CloseUpvalue => 32,
            OpCode::Return => 33,
            OpCode::Class => 34,
            OpCode::Inherit => 35,
            OpCode::Method => 36,
    }
}

/// The opcode encoded by a byte, if any.
pub open spec fn spec_from_byte(b: u8) -> Option<OpCode> {
        if b == 0 {
            Some(OpCode::Constant)
        } else if b == 1 {
            Some(OpCode::Nil)
        } else if b == 2 {
            Some(OpCode::True)
        } else if b == 3 {
            Some(OpCode::False)
        } else if b == 4 {
            Some(OpCode::Pop)
        } else if b == 5 {
            Some(OpCode::GetLocal)
        } else if b == 6 {
            Some(OpCode::SetLocal)
        } else if b == 7 {
            Some(OpCode::GetGlobal)
        } else if b == 8 {
            Some(OpCode::DefineGlobal)
        } else if b == 9 {
            Some(OpCode::SetGlobal)
        } else if b == 10 {
            Some(OpCode::GetUpvalue)
        } else if b == 11 {
            Some(OpCode::SetUpvalue)
        } else if b == 12 {
            Some(OpCode::GetProperty)
        } else if b == 13 {
            Some(OpCode::SetProperty)
        } else if b == 14 {
            Some(OpCode::GetSuper)
        } else if b == 15 {
            Some(OpCode::Equal)
        } else if b == 16 {
            Some(OpCode::Greater)
        } else if b == 17 {
            Some(OpCode::Less)
        } else if b == 18 {
            Some(OpCode::Add)
        } else if b == 19 {
            Some(OpCode::Subtract)
        } else if b == 20 {
            Some(OpCode::Multiply)
        } else if b == 21 {
            Some(OpCode::Divide)
        } else if b == 22 {
            Some(OpCode::Not)
        } else if b == 23 {
            Some(OpCode::Negate)
        } else if b == 24 {
            Some(OpCode::Print)
        } else if b == 25 {
            Some(OpCode::Jump)
        } else if b == 26 {
            Some(OpCode::JumpIfFalse)
        } else if b == 27 {
            Some(OpCode::Loop)
        } else if b == 28 {
            Some(OpCode::Call)
        } else if b == 29 {
            Some(OpCode::Invoke)
        } else if b == 30 {
            Some(OpCode::SuperInvoke)
        } else if b == 31 {
            Some(OpCode::Closure)
        } else if b == 32 {
            Some(OpCode::CloseUpvalue)
        } else if b == 33 {
            Some(OpCode::Return)
        } else if b == 34 {
            Some(OpCode::Class)
        } else if b == 35 {
            Some(OpCode::Inherit)
        } else if b == 36 {
            Some(OpCode::Method)
        } else {
            None
        }
}

impl OpCode {
    /// Decode a byte. Returns `None` for bytes outside the instruction set.
    pub fn from_byte(byte: u8) -> (r: Option<OpCode>)
        ensures
            r == spec_from_byte(byte),
    {
        let op = match byte {
            0 => OpCode::Constant,
            1 => OpCode::Nil,
            2 => OpCode::True,
            3 => OpCode::False,
            4 => OpCode::Pop,
            5 => OpCode::GetLocal,
            6 => OpCode::SetLocal,
            7 => OpCode::GetGlobal,
            8 => OpCode::DefineGlobal,
            9 => OpCode::SetGlobal,
            10 => OpCode::GetUpvalue,
            11 => OpCode::SetUpvalue,
            12 => OpCode::GetProperty,
            13 => OpCode::SetProperty,
            14 => OpCode::GetSuper,
            15 => OpCode::Equal,
            16 => OpCode::Greater,
            17 => OpCode::Less,
            18 => OpCode::Add,
            19 => OpCode::Subtract,
            20 => OpCode::Multiply,
            21 => OpCode::Divide,
            22 => OpCode::Not,
            23 => OpCode::Negate,
            24 => OpCode::Print,
            25 => OpCode::Jump,
            26 => OpCode::JumpIfFalse,
            27 => OpCode::Loop,
            28 => OpCode::Call,
            29 => OpCode::Invoke,
            30 => OpCode::SuperInvoke,
            31 => OpCode::Closure,
            32 => OpCode::CloseUpvalue,
            33 => OpCode::Return,
            34 => OpCode::Class,
            35 => OpCode::Inherit,
            36 => OpCode::Method,
            _ => return None,
        };
        Some(op)
    }

    /// The byte that encodes this opcode.
    pub fn as_byte(self) -> (b: u8)
        ensures
            b == spec_op_byte(self),
    {
        match self {
            OpCode::Constant => 0,
            OpCode::Nil => 1,
            OpCode::True => 2,
            OpCode::False => 3,
            OpCode::Pop => 4,
            OpCode::GetLocal => 5,
            OpCode::SetLocal => 6,
            OpCode::GetGlobal => 7,
            OpCode::DefineGlobal => 8,
            OpCode::SetGlobal => 9,
            OpCode::GetUpvalue => 10,
            OpCode::SetUpvalue => 11,
            OpCode::GetProperty => 12,
            OpCode::SetProperty => 13,
            OpCode::GetSuper => 14,
            OpCode::Equal => 15,
            OpCode::Greater => 16,
            OpCode::Less => 17,
            OpCode::Add => 18,
            OpCode::Subtract => 19,
            OpCode::Multiply => 20,
            OpCode::Divide => 21,
            OpCode::Not => 22,
            OpCode::Negate => 23,
            OpCode::Print => 24,
            OpCode::Jump => 25,
            OpCode::JumpIfFalse => 26,
            OpCode::Loop => 27,
            OpCode::Call => 28,
            OpCode::Invoke => 29,
            OpCode::SuperInvoke => 30,
            OpCode::Closure => 31,
            OpCode::CloseUpvalue => 32,
            OpCode::Return => 33,
            OpCode::Class => 34,
            OpCode::Inherit => 35,
            OpCode::Method => 36,
        }
    }
}

/// Decoding an encoded opcode gives it back.
pub proof fn lemma_opcode_round_trip(op: OpCode)
    ensures
        spec_from_byte(spec_op_byte(op)) == Some(op),
{
}

/// A byte decodes to an opcode exactly when it is at most 36, and then it is
/// that opcode's encoding.
pub proof fn lemma_byte_round_trip(b: u8)
    ensures
        spec_from_byte(b) is Some <==> b <= 36,
        spec_from_byte(b) matches Some(op) ==> spec_op_byte(op) == b,
{
}

/// A constant of the pool. A number keeps the text of its literal; the
/// machine that runs the chunk turns it into a number value.
#[derive(Debug)]
pub enum Constant {
    Number(String),
    Str(String),
    Function(Rc<ObjFunction>),
}

/// A compiled function: its name (`None` for the top-level script), the
/// number of parameters, its code, and how many upvalues its closures hold.
#[derive(Debug)]
pub struct ObjFunction {
    pub name: Option<String>,
    pub arity: usize,
    pub chunk: Chunk,
    pub upvalue_count: usize,
}

impl ObjFunction {
    pub fn new(name: Option<String>) -> (f: ObjFunction)
        ensures
            f.name == name,
            f.arity == 0,
            f.upvalue_count == 0,
            f.chunk.code@.len() == 0,
            f.chunk.lines@.len() == 0,
            f.chunk.constants@.len() == 0,
    {
        ObjFunction { name, arity: 0, chunk: Chunk::new(), upvalue_count: 0 }
    }

    /// The name shown for this function: its own, or `script`.
    pub fn display_name(&self) -> (n: &str)
        ensures
            match self.name {
                Some(s) => n@ == s@,
                None => n@ == "script"@,
            },
    {
        match &self.name {
            Some(n) => n.as_str(),
            None => "script",
        }
    }
}

/// A compiled bytecode chunk. `lines[i]` is the source line of `code[i]`.
#[derive(Debug)]
pub struct Chunk {
    pub code: Vec<u8>,
    pub lines: Vec<usize>,
    pub constants: Vec<Constant>,
}

impl Chunk {
    pub fn new() -> (c: Chunk)
        ensures
            c.code@.len() == 0,
            c.lines@.len() == 0,
            c.constants@.len() == 0,
    {
        Chunk { code: Vec::new(), lines: Vec::new(), constants: Vec::new() }
    }

    /// Append a raw byte with its source line.
    pub fn write_byte(&mut self, byte: u8, line: usize)
        ensures
            final(self).code@ == old(self).code@.push(byte),
            final(self).lines@ == old(self).lines@.push(line),
            final(self).constants@ == old(self).constants@,
    {
        self.code.push(byte);
        self.lines.push(line);
    }

    /// Append an opcode with its source line.
    pub fn write_op(&mut self, op: OpCode, line: usize)
        ensures
            final(self).code@ == old(self).code@.push(spec_op_byte(op)),
            final(self).lines@ == old(self).lines@.push(line),
            final(self).constants@ == old(self).constants@,
    {
        self.write_byte(op.as_byte(), line);
    }

    /// Add `value` to the constant pool and return its index.
    pub fn add_constant(&mut self, value: Constant) -> (i: usize)
        ensures
            final(self).constants@ == old(self).constants@.push(value),
            i == old(self).constants@.len(),
            final(self).code@ == old(self).code@,
            final(self).lines@ == old(self).lines@,
    {
        self.constants.push(value);
        self.constants.len() - 1
    }
}

} // verus!
