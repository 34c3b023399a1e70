//! Disassembler for chunks: one line of text per instruction.
//!
//! A line reads `OOOO LLLL NAME ...`: the offset with four digits, the
//! source line right-aligned in four columns (or `   |` when it repeats the
//! previous byte's), then the instruction's name left-aligned in sixteen
//! columns and its operands. How a constant prints is the caller's to say:
//! it passes the text of each constant, in pool order.

use vstd::prelude::*;
use crate::chunk::{Chunk, Constant, OpCode, spec_from_byte};
use crate::text::{chars_of, decimal, push_char, push_decimal, string_of};

verus! {

pub open spec fn fill(n: nat, c: char) -> Seq<char> {
    Seq::new(n, |_i: int| c)
}

/// `s` right-aligned in `width` columns.
pub open spec fn pad_left(s: Seq<char>, width: nat, c: char) -> Seq<char> {
    if s.len() >= width {
        s
    } else {
        fill((width - s.len()) as nat, c) + s
    }
}

/// `s` left-aligned in `width` columns.
pub open spec fn pad_right(s: Seq<char>, width: nat) -> Seq<char> {
    if s.len() >= width {
        s
    } else {
        s + fill((width - s.len()) as nat, ' ')
    }
}

/// The printed name of an opcode.
pub open spec fn op_name_text(op: OpCode) -> Seq<char> {
    match op {
        OpCode::Constant => "OP_CONSTANT"@,
        OpCode::Nil => "OP_NIL"@,
        OpCode::True => "OP_TRUE"@,
        OpCode::False => "OP_FALSE"@,
        OpCode::Pop => "OP_POP"@,
        OpCode::GetLocal => "OP_GET_LOCAL"@,
        OpCode::SetLocal => "OP_SET_LOCAL"@,
        OpCode::GetGlobal => "OP_GET_GLOBAL"@,
        OpCode::DefineGlobal => "OP_DEFINE_GLOBAL"@,
        OpCode::SetGlobal => "OP_SET_GLOBAL"@,
        OpCode::GetUpvalue => "OP_GET_UPVALUE"@,
        OpCode::SetUpvalue => "OP_SET_UPVALUE"@,
        OpCode::GetProperty => "OP_GET_PROPERTY"@,
        OpCode::SetProperty => "OP_SET_PROPERTY"@,
        OpCode::GetSuper => "OP_GET_SUPER"@,
        OpCode::Equal => "OP_EQUAL"@,
        OpCode::Greater => "OP_GREATER"@,
        OpCode::Less => "OP_LESS"@,
        OpCode::Add => "OP_ADD"@,
        OpCode::Subtract => "OP_SUBTRACT"@,
        OpCode::Multiply => "OP_MULTIPLY"@,
        OpCode::Divide => "OP_DIVIDE"@,
        OpCode::Not => "OP_NOT"@,
        OpCode::Negate => "OP_NEGATE"@,
        OpCode::Print => "OP_PRINT"@,
        OpCode::Jump => "OP_JUMP"@,
        OpCode::JumpIfFalse => "OP_JUMP_IF_FALSE"@,
        OpCode::Loop => "OP_LOOP"@,
        OpCode::Call => "OP_CALL"@,
        OpCode::Invoke => "OP_INVOKE"@,
        OpCode::SuperInvoke => "OP_SUPER_INVOKE"@,
        OpCode::Closure => "OP_CLOSURE"@,
        OpCode::CloseUpvalue => "OP_CLOSE_UPVALUE"@,
        OpCode::Return => "OP_RETURN"@,
        OpCode::Class => "OP_CLASS"@,
        OpCode::Inherit => "OP_INHERIT"@,
        OpCode::Method => "OP_METHOD"@,
    }
}

/// How an instruction's operands are laid out and printed.
pub enum Shape {
    /// No operand.
    Simple,
    /// A constant index, printed with the constant.
    ConstantIndex,
    /// A slot or count byte.
    Byte,
    /// A two-byte jump distance, forward (`true`) or backward.
    Jump(bool),
    /// A constant index and an argument count.
    Invoke,
    /// A function constant index.
    Closure,
}

pub open spec fn shape(op: OpCode) -> Shape {
    match op {
        OpCode::Constant | OpCode::GetGlobal | OpCode::DefineGlobal | OpCode::SetGlobal
        | OpCode::GetProperty | OpCode::SetProperty | OpCode::GetSuper | OpCode::Class
        | OpCode::Method => Shape::ConstantIndex,
        OpCode::GetLocal | OpCode::SetLocal | OpCode::GetUpvalue | OpCode::SetUpvalue
        | OpCode::Call => Shape::Byte,
        OpCode::Jump | OpCode::JumpIfFalse => Shape::Jump(true),
        OpCode::Loop => Shape::Jump(false),
        OpCode::Invoke | OpCode::SuperInvoke => Shape::Invoke,
        OpCode::Closure => Shape::Closure,
        _ => Shape::Simple,
    }
}

/// The number of operand bytes after the opcode.
pub open spec fn operand_bytes(op: OpCode) -> nat {
    match shape(op) {
        Shape::Simple => 0,
        Shape::ConstantIndex => 1,
        Shape::Byte => 1,
        Shape::Jump(_) => 2,
        Shape::Invoke => 2,
        Shape::Closure => 1,
    }
}

/// Per constant, the upvalues of a function constant (0 for the others):
/// how many operand pairs follow a closure instruction naming it.
pub open spec fn upvalue_counts(cs: Seq<Constant>) -> Seq<nat> {
    cs.map_values(|c: Constant| match c {
        Constant::Function(f) => f.upvalue_count as nat,
        _ => 0nat,
    })
}

pub open spec fn ups_at(ups: Seq<nat>, i: nat) -> nat {
    if i < ups.len() {
        ups[i as int]
    } else {
        0
    }
}

/// The bytes of the instruction at `offset`: opcode, operands and, after a
/// closure instruction, one (is-local, index) pair per upvalue.
pub open spec fn inst_len(code: Seq<u8>, ups: Seq<nat>, offset: nat) -> nat {
    match spec_from_byte(code[offset as int]) {
        None => 1,
        Some(op) => if op == OpCode::Closure && offset + 1 < code.len() {
            2 + 2 * ups_at(ups, code[offset + 1 as int] as nat)
        } else {
            1 + operand_bytes(op)
        },
    }
}

/// The instruction at `offset` has all its operand bytes.
pub open spec fn fits(code: Seq<u8>, ups: Seq<nat>, offset: nat) -> bool {
    offset < code.len() && offset + inst_len(code, ups, offset) <= code.len()
}

/// Where the instruction after the one at `offset` starts.
pub open spec fn next_offset(code: Seq<u8>, ups: Seq<nat>, offset: nat) -> nat {
    offset + inst_len(code, ups, offset)
}

/// Every instruction from `offset` on has its operands.
pub open spec fn decodes_from(code: Seq<u8>, ups: Seq<nat>, offset: nat) -> bool
    decreases code.len() - offset,
{
    if offset >= code.len() {
        true
    } else {
        fits(code, ups, offset) && decodes_from(code, ups, next_offset(code, ups, offset))
    }
}

/// The lines listing the first `k` upvalue pairs of a closure instruction
/// whose pairs start at `start`, each on a line of its own.
pub open spec fn pair_lines(code: Seq<u8>, start: nat, k: nat) -> Seq<char>
    decreases k,
{
    if k == 0 {
        Seq::empty()
    } else {
        pair_lines(code, start, (k - 1) as nat) + pair_line(code, (start + 2 * (k - 1)) as nat)
    }
}

/// The line listing the upvalue pair at `at`: a local slot or an upvalue
/// of the enclosing function, and its index.
pub open spec fn pair_line(code: Seq<u8>, at: nat) -> Seq<char> {
    "\n"@ + pad_left(decimal(at), 4, '0') + "      |                     "@ + (if code[at as int] != 0 {
        "local"@
    } else {
        "upvalue"@
    }) + " "@ + decimal(code[at + 1 as int] as nat)
}

/// The offset and line columns that begin every line.
pub open spec fn head(lines: Seq<usize>, offset: nat) -> Seq<char> {
    let line_col = if offset > 0 && lines[offset as int] == lines[offset - 1] {
        "   |"@
    } else {
        pad_left(decimal(lines[offset as int] as nat), 4, ' ')
    };
    pad_left(decimal(offset), 4, '0') + " "@ + line_col + " "@
}

/// A constant between quotes: its text, or `?` when the index is out of
/// the pool.
pub open spec fn quoted_constant(shown: Seq<Seq<char>>, idx: nat) -> Seq<char> {
    "'"@ + (if idx < shown.len() {
        shown[idx as int]
    } else {
        "?"@
    }) + "'"@
}

pub open spec fn jump_target(code: Seq<u8>, offset: nat, forward: bool) -> int {
    let jump = code[offset + 1 as int] as nat * 256 + code[offset + 2 as int] as nat;
    if forward {
        (offset + 3 + jump) as int
    } else {
        offset + 3 - jump
    }
}

/// A jump is shown with its target: `OP_JUMP` and `OP_JUMP_IF_FALSE` jump
/// forward to the offset after their operand plus the operand, `OP_LOOP`
/// back to that offset minus the operand.
pub proof fn lemma_jump_shows_target(code: Seq<u8>, shown: Seq<Seq<char>>, ups: Seq<nat>, offset: nat)
    requires
        offset + 2 < code.len(),
        spec_from_byte(code[offset as int]) == Some(OpCode::Jump) || spec_from_byte(code[offset as int]) == Some(
            OpCode::JumpIfFalse,
        ) || spec_from_byte(code[offset as int]) == Some(OpCode::Loop),
    ensures
        ({
            let op = spec_from_byte(code[offset as int]).unwrap();
            let jump = code[offset + 1 as int] as int * 256 + code[offset + 2 as int] as int;
            let target = if op == OpCode::Loop {
                offset + 3 - jump
            } else {
                offset + 3 + jump
            };
            body_text(code, shown, ups, offset) == pad_right(op_name_text(op), 16) + " "@ + pad_left(
                decimal(offset),
                4,
                ' ',
            ) + " -> "@ + signed_text(target)
        }),
{
}

pub open spec fn signed_text(x: int) -> Seq<char> {
    if x < 0 {
        "-"@ + decimal((-x) as nat)
    } else {
        decimal(x as nat)
    }
}

/// The text of the instruction at `offset`, without the head columns.
pub open spec fn body_text(code: Seq<u8>, shown: Seq<Seq<char>>, ups: Seq<nat>, offset: nat) -> Seq<char> {
    match spec_from_byte(code[offset as int]) {
        None => "Unknown opcode "@ + decimal(code[offset as int] as nat),
        Some(op) => {
            let name = pad_right(op_name_text(op), 16);
            match shape(op) {
                Shape::Simple => op_name_text(op),
                Shape::ConstantIndex => name + " "@ + pad_left(decimal(code[offset + 1 as int] as nat), 4, ' ') + " "@
                    + quoted_constant(shown, code[offset + 1 as int] as nat),
                Shape::Byte => name + " "@ + pad_left(decimal(code[offset + 1 as int] as nat), 4, ' '),
                Shape::Jump(forward) => name + " "@ + pad_left(decimal(offset), 4, ' ') + " -> "@ + signed_text(
                    jump_target(code, offset, forward),
                ),
                Shape::Invoke => name + " ("@ + decimal(code[offset + 2 as int] as nat) + " args) "@ + pad_left(
                    decimal(code[offset + 1 as int] as nat),
                    4,
                    ' ',
                ) + " "@ + quoted_constant(shown, code[offset + 1 as int] as nat),
                Shape::Closure => name + " "@ + pad_left(decimal(code[offset + 1 as int] as nat), 4, ' ') + " "@
                    + quoted_constant(shown, code[offset + 1 as int] as nat) + pair_lines(
                    code,
                    offset + 2,
                    ups_at(ups, code[offset + 1 as int] as nat),
                ),
            }
        },
    }
}

pub open spec fn instruction_text(
    code: Seq<u8>,
    lines: Seq<usize>,
    shown: Seq<Seq<char>>,
    ups: Seq<nat>,
    offset: nat,
) -> Seq<char> {
    head(lines, offset) + body_text(code, shown, ups, offset)
}

/// The lines of every instruction from `offset` on, each ended by a
/// newline.
pub open spec fn listing(code: Seq<u8>, lines: Seq<usize>, shown: Seq<Seq<char>>, ups: Seq<nat>, offset: nat) -> Seq<char>
    decreases code.len() - offset,
{
    if offset >= code.len() || next_offset(code, ups, offset) <= offset || next_offset(code, ups, offset) > code.len() {
        Seq::empty()
    } else {
        instruction_text(code, lines, shown, ups, offset) + "\n"@ + listing(
            code,
            lines,
            shown,
            ups,
            next_offset(code, ups, offset),
        )
    }
}

pub open spec fn shown_view(shown: Seq<String>) -> Seq<Seq<char>> {
    shown.map_values(|s: String| s@)
}

/// Appends `s` right-aligned in `width` columns, filled with `c`.
fn push_padded_left(out: &mut String, s: &str, width: usize, c: char)
    ensures
        final(out)@ == old(out)@ + pad_left(s@, width as nat, c),
{
    let n = chars_of(s).len();
    let mut i = n;
    let ghost start = out@;
    while i < width
        invariant
            n == s@.len(),
            n <= i,
            i <= width || n >= width,
            n >= width ==> i == n,
            out@ == start + fill((i - n) as nat, c),
        decreases width - i,
    {
        push_char(out, c);
        proof {
            assert(fill((i + 1 - n) as nat, c) =~= fill((i - n) as nat, c).push(c));
        }
        i = i + 1;
    }
    out.append(s);
    proof {
        if n >= width {
            assert(fill(0, c) =~= Seq::<char>::empty());
            assert(out@ =~= start + s@);
        } else {
            assert(out@ =~= start + (fill((width - n) as nat, c) + s@));
        }
    }
}

/// Appends `s` left-aligned in `width` columns.
fn push_padded_right(out: &mut String, s: &str, width: usize)
    ensures
        final(out)@ == old(out)@ + pad_right(s@, width as nat),
{
    let n = chars_of(s).len();
    let ghost start = out@;
    out.append(s);
    let mut i = n;
    while i < width
        invariant
            n == s@.len(),
            n <= i,
            i <= width || n >= width,
            n >= width ==> i == n,
            out@ == start + s@ + fill((i - n) as nat, ' '),
        decreases width - i,
    {
        push_char(out, ' ');
        proof {
            assert(fill((i + 1 - n) as nat, ' ') =~= fill((i - n) as nat, ' ').push(' '));
        }
        i = i + 1;
    }
    proof {
        if n >= width {
            assert(fill(0, ' ') =~= Seq::<char>::empty());
            assert(out@ =~= start + s@);
        } else {
            assert(out@ =~= start + (s@ + fill((width - n) as nat, ' ')));
        }
    }
}

/// Appends the line listing the upvalue pair at `at`.
fn push_pair_line(line: &mut String, code: &Vec<u8>, at: usize)
    requires
        at + 1 < code@.len(),
        code@.len() < usize::MAX,
    ensures
        final(line)@ == old(line)@ + pair_line(code@, at as nat),
{
    line.append("\n");
    push_number_padded(line, at, 4, '0');
    line.append("      |                     ");
    if code[at] != 0 {
        line.append("local");
    } else {
        line.append("upvalue");
    }
    line.append(" ");
    push_decimal(line, code[at + 1] as usize);
    proof {
        assert(line@ =~= old(line)@ + pair_line(code@, at as nat));
    }
}

fn push_number_padded(out: &mut String, n: usize, width: usize, c: char)
    ensures
        final(out)@ == old(out)@ + pad_left(decimal(n as nat), width as nat, c),
{
    let mut digits = String::new();
    push_decimal(&mut digits, n);
    assert(digits@ =~= decimal(n as nat));
    push_padded_left(out, digits.as_str(), width, c);
}

/// The printed name of an opcode.
pub fn op_name(op: OpCode) -> (s: &'static str)
    ensures
        s@ == op_name_text(op),
{
    match op {
        OpCode::Constant => "OP_CONSTANT",
        OpCode::Nil => "OP_NIL",
        OpCode::True => "OP_TRUE",
        OpCode::False => "OP_FALSE",
        OpCode::Pop => "OP_POP",
        OpCode::GetLocal => "OP_GET_LOCAL",
        OpCode::SetLocal => "OP_SET_LOCAL",
        OpCode::GetGlobal => "OP_GET_GLOBAL",
        OpCode::DefineGlobal => "OP_DEFINE_GLOBAL",
        OpCode::SetGlobal => "OP_SET_GLOBAL",
        OpCode::GetUpvalue => "OP_GET_UPVALUE",
        OpCode::SetUpvalue => "OP_SET_UPVALUE",
        OpCode::GetProperty => "OP_GET_PROPERTY",
        OpCode::SetProperty => "OP_SET_PROPERTY",
        OpCode::GetSuper => "OP_GET_SUPER",
        OpCode::Equal => "OP_EQUAL",
        OpCode::Greater => "OP_GREATER",
        OpCode::Less => "OP_LESS",
        OpCode::Add => "OP_ADD",
        OpCode::Subtract => "OP_SUBTRACT",
        OpCode::Multiply => "OP_MULTIPLY",
        OpCode::Divide => "OP_DIVIDE",
        OpCode::Not => "OP_NOT",
        OpCode::Negate => "OP_NEGATE",
        OpCode::Print => "OP_PRINT",
        OpCode::Jump => "OP_JUMP",
        OpCode::JumpIfFalse => "OP_JUMP_IF_FALSE",
        OpCode::Loop => "OP_LOOP",
        OpCode::Call => "OP_CALL",
        OpCode::Invoke => "OP_INVOKE",
        OpCode::SuperInvoke => "OP_SUPER_INVOKE",
        OpCode::Closure => "OP_CLOSURE",
        OpCode::CloseUpvalue => "OP_CLOSE_UPVALUE",
        OpCode::Return => "OP_RETURN",
        OpCode::Class => "OP_CLASS",
        OpCode::Inherit => "OP_INHERIT",
        OpCode::Method => "OP_METHOD",
    }
}

/// The quoted text of constant `idx`, appended.
fn push_quoted_constant(out: &mut String, shown: &Vec<String>, idx: usize)
    ensures
        final(out)@ == old(out)@ + quoted_constant(shown_view(shown@), idx as nat),
{
    let ghost start = out@;
    out.append("'");
    if idx < shown.len() {
        out.append(shown[idx].as_str());
    } else {
        out.append("?");
    }
    out.append("'");
    proof {
        let sv = shown_view(shown@);
        if idx < shown@.len() {
            assert(sv[idx as int] == shown@[idx as int]@);
        }
        assert(out@ =~= start + quoted_constant(sv, idx as nat));
    }
}

fn simple(line: String, name: &str, offset: usize) -> (r: (String, usize))
    requires
        offset < usize::MAX,
    ensures
        r.0@ == line@ + name@,
        r.1 == offset + 1,
{
    let mut line = line;
    line.append(name);
    (line, offset + 1)
}

fn constant_instruction(line: String, name: &str, chunk: &Chunk, offset: usize, shown: &Vec<String>) -> (r: (String, usize))
    requires
        offset + 1 < chunk.code@.len(),
    ensures
        r.0@ == line@ + pad_right(name@, 16) + " "@ + pad_left(decimal(chunk.code@[offset + 1 as int] as nat), 4, ' ')
            + " "@ + quoted_constant(shown_view(shown@), chunk.code@[offset + 1 as int] as nat),
        r.1 == offset + 2,
{
    let n = chunk.code.len();
    let mut line = line;
    let idx = chunk.code[offset + 1] as usize;
    let ghost start = line@;
    push_padded_right(&mut line, name, 16);
    line.append(" ");
    push_number_padded(&mut line, idx, 4, ' ');
    line.append(" ");
    push_quoted_constant(&mut line, shown, idx);
    proof {
        assert(line@ =~= start + pad_right(name@, 16) + " "@ + pad_left(decimal(idx as nat), 4, ' ') + " "@
            + quoted_constant(shown_view(shown@), idx as nat));
    }
    (line, offset + 2)
}

fn byte_instruction(line: String, name: &str, chunk: &Chunk, offset: usize) -> (r: (String, usize))
    requires
        offset + 1 < chunk.code@.len(),
    ensures
        r.0@ == line@ + pad_right(name@, 16) + " "@ + pad_left(decimal(chunk.code@[offset + 1 as int] as nat), 4, ' '),
        r.1 == offset + 2,
{
    let n = chunk.code.len();
    let mut line = line;
    let slot = chunk.code[offset + 1] as usize;
    let ghost start = line@;
    push_padded_right(&mut line, name, 16);
    line.append(" ");
    push_number_padded(&mut line, slot, 4, ' ');
    proof {
        assert(line@ =~= start + pad_right(name@, 16) + " "@ + pad_left(decimal(slot as nat), 4, ' '));
    }
    (line, offset + 2)
}

fn jump_instruction(line: String, name: &str, forward: bool, chunk: &Chunk, offset: usize) -> (r: (String, usize))
    requires
        offset + 2 < chunk.code@.len(),
        chunk.code@.len() + 65540 < usize::MAX,
    ensures
        r.0@ == line@ + pad_right(name@, 16) + " "@ + pad_left(decimal(offset as nat), 4, ' ') + " -> "@
            + signed_text(jump_target(chunk.code@, offset as nat, forward)),
        r.1 == offset + 3,
{
    let n = chunk.code.len();
    let mut line = line;
    let hi = chunk.code[offset + 1] as usize;
    let lo = chunk.code[offset + 2] as usize;
    let jump = hi * 256 + lo;
    let post = offset + 3;
    let ghost start = line@;
    push_padded_right(&mut line, name, 16);
    line.append(" ");
    push_number_padded(&mut line, offset, 4, ' ');
    line.append(" -> ");
    let ghost mid = line@;
    if forward {
        push_decimal(&mut line, post + jump);
    } else if jump > post {
        line.append("-");
        push_decimal(&mut line, jump - post);
    } else {
        push_decimal(&mut line, post - jump);
    }
    proof {
        let t = jump_target(chunk.code@, offset as nat, forward);
        if !forward && jump > post {
            assert(signed_text(t) == "-"@ + decimal((jump - post) as nat));
            assert(line@ =~= mid + signed_text(t));
        } else {
            assert(line@ =~= mid + signed_text(t));
        }
        assert(line@ =~= start + pad_right(name@, 16) + " "@ + pad_left(decimal(offset as nat), 4, ' ') + " -> "@
            + signed_text(t));
    }
    (line, offset + 3)
}

fn invoke_instruction(line: String, name: &str, chunk: &Chunk, offset: usize, shown: &Vec<String>) -> (r: (String, usize))
    requires
        offset + 2 < chunk.code@.len(),
    ensures
        r.0@ == line@ + pad_right(name@, 16) + " ("@ + decimal(chunk.code@[offset + 2 as int] as nat) + " args) "@
            + pad_left(decimal(chunk.code@[offset + 1 as int] as nat), 4, ' ') + " "@ + quoted_constant(
            shown_view(shown@),
            chunk.code@[offset + 1 as int] as nat,
        ),
        r.1 == offset + 3,
{
    let n = chunk.code.len();
    let mut line = line;
    let const_idx = chunk.code[offset + 1] as usize;
    let arg_count = chunk.code[offset + 2] as usize;
    let ghost start = line@;
    push_padded_right(&mut line, name, 16);
    line.append(" (");
    push_decimal(&mut line, arg_count);
    line.append(" args) ");
    push_number_padded(&mut line, const_idx, 4, ' ');
    line.append(" ");
    push_quoted_constant(&mut line, shown, const_idx);
    proof {
        assert(line@ =~= start + pad_right(name@, 16) + " ("@ + decimal(arg_count as nat) + " args) "@ + pad_left(
            decimal(const_idx as nat),
            4,
            ' ',
        ) + " "@ + quoted_constant(shown_view(shown@), const_idx as nat));
    }
    (line, offset + 3)
}

/// The upvalue count of constant `idx` when it is a function, else 0.
fn upvalue_count_of(chunk: &Chunk, idx: usize) -> (k: usize)
    ensures
        k == ups_at(upvalue_counts(chunk.constants@), idx as nat),
{
    if idx < chunk.constants.len() {
        match &chunk.constants[idx] {
            Constant::Function(f) => f.upvalue_count,
            _ => 0,
        }
    } else {
        0
    }
}

fn closure_instruction(line: String, chunk: &Chunk, offset: usize, shown: &Vec<String>) -> (r: (String, usize))
    requires
        chunk.code@.len() + 65540 < usize::MAX,
        fits(chunk.code@, upvalue_counts(chunk.constants@), offset as nat),
        spec_from_byte(chunk.code@[offset as int]) == Some(OpCode::Closure),
    ensures
        r.0@ == line@ + pad_right("OP_CLOSURE"@, 16) + " "@ + pad_left(decimal(chunk.code@[offset + 1 as int] as nat), 4, ' ')
            + " "@ + quoted_constant(shown_view(shown@), chunk.code@[offset + 1 as int] as nat) + pair_lines(
            chunk.code@,
            offset as nat + 2,
            ups_at(upvalue_counts(chunk.constants@), chunk.code@[offset + 1 as int] as nat),
        ),
        r.1 == next_offset(chunk.code@, upvalue_counts(chunk.constants@), offset as nat),
{
    let ghost code = chunk.code@;
    let ghost ups = upvalue_counts(chunk.constants@);
    proof {
        assert(offset + 1 < code.len());
    }
    let (mut line, _) = constant_instruction(line, "OP_CLOSURE", chunk, offset, shown);
    let ghost first = line@;
    let idx = chunk.code[offset + 1] as usize;
    let k = upvalue_count_of(chunk, idx);
    let mut j: usize = 0;
    while j < k
        invariant
            code == chunk.code@,
            k == ups_at(ups, idx as nat),
            idx == code[offset + 1 as int],
            offset + 2 + 2 * k <= code.len(),
            code.len() + 65540 < usize::MAX,
            j <= k,
            line@ == first + pair_lines(code, offset as nat + 2, j as nat),
        decreases k - j,
    {
        let at = offset + 2 + 2 * j;
        let ghost before = line@;
        push_pair_line(&mut line, &chunk.code, at);
        proof {
            assert(line@ =~= first + pair_lines(code, offset as nat + 2, (j + 1) as nat));
        }
        j = j + 1;
    }
    (line, offset + 2 + 2 * k)
}

/// The line of the instruction at `offset`, and the offset of the next
/// one. `shown` holds the text of each constant.
/// The text of the instruction at `offset` after its head columns.
#[verifier::rlimit(60)]
fn instruction_body(line: String, chunk: &Chunk, offset: usize, shown: &Vec<String>) -> (r: (String, usize))
    requires
        chunk.code@.len() + 65540 < usize::MAX,
        fits(chunk.code@, upvalue_counts(chunk.constants@), offset as nat),
    ensures
        r.0@ == line@ + body_text(chunk.code@, shown_view(shown@), upvalue_counts(chunk.constants@), offset as nat),
        r.1 == next_offset(chunk.code@, upvalue_counts(chunk.constants@), offset as nat),
{
    let mut line = line;
    let ghost h = line@;
    let byte = chunk.code[offset];
    let op = match OpCode::from_byte(byte) {
        Some(op) => op,
        None => {
            line.append("Unknown opcode ");
            push_decimal(&mut line, byte as usize);
            proof {
                assert(line@ =~= h + body_text(chunk.code@, shown_view(shown@), upvalue_counts(chunk.constants@), offset as nat));
            }
            return (line, offset + 1);
        },
    };
    let name = op_name(op);
    let r = match op {
        OpCode::Nil | OpCode::True | OpCode::False | OpCode::Pop | OpCode::Equal | OpCode::Greater
        | OpCode::Less | OpCode::Add | OpCode::Subtract | OpCode::Multiply | OpCode::Divide | OpCode::Not
        | OpCode::Negate | OpCode::Print | OpCode::CloseUpvalue | OpCode::Return | OpCode::Inherit => simple(
            line,
            name,
            offset,
        ),
        OpCode::Constant | OpCode::GetGlobal | OpCode::DefineGlobal | OpCode::SetGlobal | OpCode::GetProperty
        | OpCode::SetProperty | OpCode::GetSuper | OpCode::Class | OpCode::Method => constant_instruction(
            line,
            name,
            chunk,
            offset,
            shown,
        ),
        OpCode::GetLocal | OpCode::SetLocal | OpCode::GetUpvalue | OpCode::SetUpvalue => byte_instruction(
            line,
            name,
            chunk,
            offset,
        ),
        OpCode::Call => byte_instruction(line, name, chunk, offset),
        OpCode::Jump | OpCode::JumpIfFalse => jump_instruction(line, name, true, chunk, offset),
        OpCode::Loop => jump_instruction(line, name, false, chunk, offset),
        OpCode::Invoke | OpCode::SuperInvoke => invoke_instruction(line, name, chunk, offset, shown),
        OpCode::Closure => closure_instruction(line, chunk, offset, shown),
    };
    r
}

pub fn disassemble_instruction(chunk: &Chunk, offset: usize, shown: &Vec<String>) -> (r: (String, usize))
    requires
        chunk.lines@.len() == chunk.code@.len(),
        chunk.code@.len() + 65540 < usize::MAX,
        fits(chunk.code@, upvalue_counts(chunk.constants@), offset as nat),
    ensures
        r.0@ == instruction_text(
            chunk.code@,
            chunk.lines@,
            shown_view(shown@),
            upvalue_counts(chunk.constants@),
            offset as nat,
        ),
        r.1 == next_offset(chunk.code@, upvalue_counts(chunk.constants@), offset as nat),
{
    let mut line = String::new();
    push_number_padded(&mut line, offset, 4, '0');
    line.append(" ");
    if offset > 0 && chunk.lines[offset] == chunk.lines[offset - 1] {
        line.append("   |");
    } else {
        push_number_padded(&mut line, chunk.lines[offset], 4, ' ');
    }
    line.append(" ");
    proof {
        assert(line@ =~= head(chunk.lines@, offset as nat));
    }
    instruction_body(line, chunk, offset, shown)
}

/// Whether every instruction of the chunk has its operand bytes (and,
/// after a closure instruction, its upvalue pairs).
pub fn decodes(chunk: &Chunk) -> (r: bool)
    ensures
        r == decodes_from(chunk.code@, upvalue_counts(chunk.constants@), 0),
{
    let ghost ups = upvalue_counts(chunk.constants@);
    let code = &chunk.code;
    let mut offset: usize = 0;
    while offset < code.len()
        invariant
            code@ == chunk.code@,
            ups == upvalue_counts(chunk.constants@),
            decodes_from(code@, ups, 0) == decodes_from(code@, ups, offset as nat),
        decreases code.len() - offset,
    {
        let byte = code[offset];
        let width: usize = match OpCode::from_byte(byte) {
            None => 0,
            Some(op) => match op {
                OpCode::Closure => {
                    if offset + 1 >= code.len() {
                        return false;
                    }
                    let k = upvalue_count_of(chunk, code[offset + 1] as usize);
                    if k > (code.len() - offset) / 2 {
                        return false;
                    }
                    1 + 2 * k
                },
                OpCode::Constant | OpCode::GetGlobal | OpCode::DefineGlobal | OpCode::SetGlobal
                | OpCode::GetProperty | OpCode::SetProperty | OpCode::GetSuper | OpCode::Class
                | OpCode::Method | OpCode::GetLocal | OpCode::SetLocal | OpCode::GetUpvalue
                | OpCode::SetUpvalue | OpCode::Call => 1,
                OpCode::Jump | OpCode::JumpIfFalse | OpCode::Loop | OpCode::Invoke | OpCode::SuperInvoke => 2,
                _ => 0,
            },
        };
        if width >= code.len() - offset {
            return false;
        }
        offset = offset + 1 + width;
    }
    true
}

/// The whole chunk: a `== name ==` header, then one line per
/// instruction.
pub fn disassemble_chunk(chunk: &Chunk, name: &str, shown: &Vec<String>) -> (s: String)
    requires
        chunk.lines@.len() == chunk.code@.len(),
        chunk.code@.len() + 65540 < usize::MAX,
        decodes_from(chunk.code@, upvalue_counts(chunk.constants@), 0),
    ensures
        s@ == "== "@ + name@ + " =="@ + "\n"@ + listing(
            chunk.code@,
            chunk.lines@,
            shown_view(shown@),
            upvalue_counts(chunk.constants@),
            0,
        ),
{
    let mut out = string_of("== ");
    out.append(name);
    out.append(" ==");
    out.append("\n");
    let ghost header = "== "@ + name@ + " =="@ + "\n"@;
    assert(out@ =~= header);
    let ghost code = chunk.code@;
    let ghost lines = chunk.lines@;
    let ghost sv = shown_view(shown@);
    let ghost ups = upvalue_counts(chunk.constants@);
    let mut offset: usize = 0;
    while offset < chunk.code.len()
        invariant
            code == chunk.code@,
            lines == chunk.lines@,
            sv == shown_view(shown@),
            lines.len() == code.len(),
            code.len() + 65540 < usize::MAX,
            ups == upvalue_counts(chunk.constants@),
            decodes_from(code, ups, offset as nat),
            out@ + listing(code, lines, sv, ups, offset as nat) == header + listing(code, lines, sv, ups, 0),
        decreases code.len() - offset,
    {
        let (line, next) = disassemble_instruction(chunk, offset, shown);
        let ghost before = out@;
        out.append(line.as_str());
        out.append("\n");
        proof {
            assert(listing(code, lines, sv, ups, offset as nat) == instruction_text(code, lines, sv, ups, offset as nat)
                + "\n"@ + listing(code, lines, sv, ups, next as nat));
            assert(out@ + listing(code, lines, sv, ups, next as nat) =~= before + listing(code, lines, sv, ups, offset as nat));
        }
        offset = next;
    }
    proof {
        assert(listing(code, lines, sv, ups, offset as nat) =~= Seq::<char>::empty());
        assert(out@ =~= header + listing(code, lines, sv, ups, 0));
    }
    out
}

} // verus!
