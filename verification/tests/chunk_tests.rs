use rlox::chunk::{Chunk, Constant, ObjFunction, OpCode};

#[test]
fn chunk_write_byte_records_line() {
    let mut chunk = Chunk::new();
    chunk.write_byte(0xAB, 7);
    chunk.write_byte(0xCD, 8);
    assert_eq!(chunk.code, vec![0xAB, 0xCD]);
    assert_eq!(chunk.lines, vec![7, 8]);
}

#[test]
fn chunk_write_op_round_trip_via_from_byte() {
    let mut chunk = Chunk::new();
    chunk.write_op(OpCode::Return, 1);
    chunk.write_op(OpCode::Add, 2);
    chunk.write_op(OpCode::Class, 3);

    assert_eq!(chunk.code.len(), 3);
    assert_eq!(OpCode::from_byte(chunk.code[0]), Some(OpCode::Return));
    assert_eq!(OpCode::from_byte(chunk.code[1]), Some(OpCode::Add));
    assert_eq!(OpCode::from_byte(chunk.code[2]), Some(OpCode::Class));
}

#[test]
fn chunk_add_constant_returns_increasing_index() {
    let mut chunk = Chunk::new();
    let i0 = chunk.add_constant(Constant::Number("1.0".to_string()));
    let i1 = chunk.add_constant(Constant::Number("2.0".to_string()));
    let i2 = chunk.add_constant(Constant::Str("nil".to_string()));
    assert_eq!(i0, 0);
    assert_eq!(i1, 1);
    assert_eq!(i2, 2);
    assert_eq!(chunk.constants.len(), 3);
}

#[test]
fn chunk_opcode_from_byte_unknown_returns_none() {
    assert!(OpCode::from_byte(255).is_none());
    assert!(OpCode::from_byte(200).is_none());
    assert_eq!(OpCode::from_byte(OpCode::Method.as_byte()), Some(OpCode::Method));
}

#[test]
fn chunk_opcode_as_byte_matches_discriminant() {
    assert_eq!(OpCode::Constant.as_byte(), 0);
    assert_eq!(OpCode::Nil.as_byte(), 1);
    assert_eq!(OpCode::Return.as_byte(), 33);
    assert_eq!(OpCode::Method.as_byte(), 36);
    for raw in 0u8..=36 {
        let op = OpCode::from_byte(raw).expect("known opcode");
        assert_eq!(op.as_byte(), raw);
    }
}

#[test]
fn chunk_every_byte_past_36_is_unknown() {
    for raw in 37u8..=255 {
        assert!(OpCode::from_byte(raw).is_none(), "byte {raw}");
    }
}

#[test]
fn chunk_function_display_name() {
    let script = ObjFunction::new(None);
    assert_eq!(script.display_name(), "script");
    let f = ObjFunction::new(Some("fib".to_string()));
    assert_eq!(f.display_name(), "fib");
    assert_eq!(f.arity, 0);
    assert_eq!(f.upvalue_count, 0);
    assert!(f.chunk.code.is_empty());
}
