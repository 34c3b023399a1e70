use std::rc::Rc;

use rlox::chunk::{Chunk, Constant, ObjFunction, OpCode};
use rlox::debug::{decodes, disassemble_chunk, disassemble_instruction};

fn no_constants() -> Vec<String> {
    Vec::new()
}

#[test]
fn debug_disassemble_constant_instruction() {
    let mut chunk = Chunk::new();
    let idx = chunk.add_constant(Constant::Number("42.0".to_string()));
    chunk.write_op(OpCode::Constant, 1);
    chunk.write_byte(idx as u8, 1);

    // The constant 42.0 prints as `42`.
    let shown = vec!["42".to_string()];
    let (line, next) = disassemble_instruction(&chunk, 0, &shown);
    assert!(line.contains("OP_CONSTANT"), "line={line:?}");
    assert!(line.starts_with("0000"), "line={line:?}");
    assert!(line.contains("'42'"), "line={line:?}");
    assert_eq!(next, 2);
}

#[test]
fn debug_disassemble_return_simple() {
    let mut chunk = Chunk::new();
    chunk.write_op(OpCode::Return, 1);
    let (line, next) = disassemble_instruction(&chunk, 0, &no_constants());
    assert!(line.contains("OP_RETURN"), "line={line:?}");
    assert_eq!(next, 1);
}

#[test]
fn debug_disassemble_same_line_shows_pipe() {
    let mut chunk = Chunk::new();
    chunk.write_op(OpCode::Nil, 3);
    chunk.write_op(OpCode::Return, 3);

    let (first, next) = disassemble_instruction(&chunk, 0, &no_constants());
    assert!(first.contains("   3"), "first={first:?}");

    let (second, _) = disassemble_instruction(&chunk, next, &no_constants());
    assert!(second.contains("   |"), "second={second:?}");
    assert!(!second.contains("   3"), "second={second:?}");
}

#[test]
fn debug_disassemble_different_line_shows_number() {
    let mut chunk = Chunk::new();
    chunk.write_op(OpCode::Nil, 1);
    chunk.write_op(OpCode::Return, 2);

    let (_, next) = disassemble_instruction(&chunk, 0, &no_constants());
    let (second, _) = disassemble_instruction(&chunk, next, &no_constants());
    assert!(second.contains("   2"), "second={second:?}");
    assert!(!second.contains("   |"), "second={second:?}");
}

#[test]
fn debug_disassemble_jump_operand() {
    let mut chunk = Chunk::new();
    chunk.write_op(OpCode::Jump, 1);
    chunk.write_byte(0x00, 1);
    chunk.write_byte(0x02, 1);
    chunk.write_op(OpCode::Return, 1);
    chunk.write_op(OpCode::Return, 1);

    let (line, next) = disassemble_instruction(&chunk, 0, &no_constants());
    assert!(line.contains("OP_JUMP"), "line={line:?}");
    assert!(line.contains("   0 -> 5"), "line={line:?}");
    assert_eq!(next, 3);
}

#[test]
fn debug_disassemble_chunk_header() {
    let mut chunk = Chunk::new();
    chunk.write_op(OpCode::Return, 1);
    let dump = disassemble_chunk(&chunk, "test", &no_constants());
    assert!(dump.starts_with("== test =="), "dump={dump:?}");
    assert!(dump.contains("OP_RETURN"), "dump={dump:?}");
}

#[test]
fn debug_disassemble_unknown_opcode() {
    let mut chunk = Chunk::new();
    chunk.write_byte(250, 1);
    let (line, next) = disassemble_instruction(&chunk, 0, &no_constants());
    assert!(line.contains("Unknown opcode 250"), "line={line:?}");
    assert_eq!(next, 1);
}

#[test]
fn debug_disassemble_loop_goes_backward() {
    let mut chunk = Chunk::new();
    chunk.write_op(OpCode::Nil, 1);
    chunk.write_op(OpCode::Pop, 1);
    chunk.write_op(OpCode::Print, 1);
    chunk.write_op(OpCode::Loop, 1);
    chunk.write_byte(0x00, 1);
    chunk.write_byte(0x06, 1);

    let (line, next) = disassemble_instruction(&chunk, 3, &no_constants());
    assert!(line.contains("OP_LOOP"), "line={line:?}");
    assert!(line.contains("   3 -> 0"), "line={line:?}");
    assert_eq!(next, 6);
}

// Further cases.

#[test]
fn debug_exact_lines() {
    let mut chunk = Chunk::new();
    chunk.add_constant(Constant::Str("x".to_string()));
    chunk.write_op(OpCode::GetGlobal, 12);
    chunk.write_byte(0, 12);
    chunk.write_op(OpCode::Call, 12);
    chunk.write_byte(2, 12);
    chunk.write_op(OpCode::Loop, 13);
    chunk.write_byte(0x00, 13);
    chunk.write_byte(0x20, 13);
    chunk.write_op(OpCode::Invoke, 14);
    chunk.write_byte(5, 14);
    chunk.write_byte(3, 14);
    let shown = vec!["x".to_string()];
    let dump = disassemble_chunk(&chunk, "main", &shown);
    assert_eq!(
        dump,
        "== main ==\n0000   12 OP_GET_GLOBAL       0 'x'\n0002    | OP_CALL             2\n0004   13 OP_LOOP             4 -> -25\n0007   14 OP_INVOKE        (3 args)    5 '?'\n"
    );
}

fn chunk_of(code: Vec<u8>) -> Chunk {
    let mut chunk = Chunk::new();
    for b in code {
        chunk.write_byte(b, 1);
    }
    chunk
}

#[test]
fn debug_decodes_detects_truncated_instructions() {
    assert!(decodes(&chunk_of(vec![OpCode::Return.as_byte()])));
    assert!(decodes(&chunk_of(vec![])));
    assert!(!decodes(&chunk_of(vec![OpCode::Constant.as_byte()])));
    assert!(!decodes(&chunk_of(vec![OpCode::Jump.as_byte(), 0])));
    assert!(decodes(&chunk_of(vec![OpCode::Jump.as_byte(), 0, 0, 250])));
}

#[test]
fn debug_closure_lists_its_upvalue_pairs() {
    let mut inner = ObjFunction::new(Some("f".to_string()));
    inner.upvalue_count = 2;
    let mut chunk = chunk_of(vec![OpCode::Closure.as_byte(), 0, 1, 3, 0, 0, OpCode::Return.as_byte()]);
    chunk.add_constant(Constant::Function(Rc::new(inner)));
    let shown = vec!["<fn f>".to_string()];
    let (line, next) = disassemble_instruction(&chunk, 0, &shown);
    assert_eq!(next, 6);
    assert_eq!(
        line,
        "0000    1 OP_CLOSURE          0 '<fn f>'\n0002      |                     local 3\n0004      |                     upvalue 0"
    );
    assert!(decodes(&chunk));
    assert!(!decodes(&chunk_of(vec![OpCode::Closure.as_byte()])));
    let dump = disassemble_chunk(&chunk, "c", &shown);
    assert!(dump.ends_with("0006    | OP_RETURN\n"), "dump={dump:?}");
}
