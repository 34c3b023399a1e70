use rlox::chunk::{Chunk, Constant, ObjFunction, OpCode};
use rlox::compiler::compile;

fn ops_of(func: &ObjFunction) -> Vec<OpCode> {
    let mut out = Vec::new();
    let mut i = 0;
    while i < func.chunk.code.len() {
        let byte = func.chunk.code[i];
        if let Some(op) = OpCode::from_byte(byte) {
            out.push(op);
            i += operand_width(op, &func.chunk, i) + 1;
        } else {
            i += 1;
        }
    }
    out
}

fn operand_width(op: OpCode, chunk: &Chunk, offset: usize) -> usize {
    match op {
        OpCode::Nil | OpCode::True | OpCode::False | OpCode::Pop | OpCode::Equal | OpCode::Greater | OpCode::Less | OpCode::Add | OpCode::Subtract | OpCode::Multiply | OpCode::Divide | OpCode::Not | OpCode::Negate
        | OpCode::Print | OpCode::CloseUpvalue | OpCode::Return | OpCode::Inherit => 0,
        OpCode::Constant | OpCode::GetLocal | OpCode::SetLocal | OpCode::GetGlobal | OpCode::DefineGlobal | OpCode::SetGlobal | OpCode::GetUpvalue | OpCode::SetUpvalue
        | OpCode::GetProperty | OpCode::SetProperty | OpCode::GetSuper | OpCode::Class | OpCode::Method | OpCode::Call => 1,
        OpCode::Jump | OpCode::JumpIfFalse | OpCode::Loop => 2,
        OpCode::Invoke | OpCode::SuperInvoke => 2,
        OpCode::Closure => {
            let const_idx = chunk.code[offset + 1] as usize;
            let upvalue_count = match chunk.constants.get(const_idx) {
                Some(rlox::chunk::Constant::Function(f)) => f.upvalue_count,
                _ => 0,
            };
            1 + upvalue_count * 2
        }
    }
}

#[test]
fn compile_constant_expression() {
    let func = compile("1.5;").expect("compiles");
    let ops = ops_of(&func);
    assert_eq!(ops, vec![OpCode::Constant, OpCode::Pop, OpCode::Nil, OpCode::Return]);
}

#[test]
fn compile_arithmetic_precedence() {
    let func = compile("print 1 + 2 * 3;").expect("compiles");
    let ops = ops_of(&func);
    assert_eq!(
        ops,
        vec![
            OpCode::Constant,
            OpCode::Constant,
            OpCode::Constant,
            OpCode::Multiply,
            OpCode::Add,
            OpCode::Print,
            OpCode::Nil,
            OpCode::Return,
        ]
    );
}

#[test]
fn compile_negation_unary() {
    let func = compile("print -1;").expect("compiles");
    let ops = ops_of(&func);
    assert_eq!(ops, vec![OpCode::Constant, OpCode::Negate, OpCode::Print, OpCode::Nil, OpCode::Return]);
}

#[test]
fn compile_global_variable_declaration() {
    let func = compile("var x = 1;").expect("compiles");
    let ops = ops_of(&func);
    assert!(ops.contains(&OpCode::DefineGlobal));
    assert!(ops.contains(&OpCode::Constant));
}

#[test]
fn compile_global_variable_read() {
    let func = compile("var x = 1; print x;").expect("compiles");
    let ops = ops_of(&func);
    assert!(ops.contains(&OpCode::GetGlobal));
}

#[test]
fn compile_local_scope_resolves_to_slot() {
    let func = compile("{ var a = 1; print a; }").expect("compiles");
    let ops = ops_of(&func);
    assert!(ops.contains(&OpCode::GetLocal), "expected GetLocal in {ops:?}");
}

#[test]
fn compile_if_else_has_two_jumps() {
    let func = compile("if (true) print 1; else print 2;").expect("compiles");
    let ops = ops_of(&func);
    let jumps = ops.iter().filter(|o| matches!(o, OpCode::Jump | OpCode::JumpIfFalse)).count();
    assert_eq!(jumps, 2, "expected Jump + JumpIfFalse, got {ops:?}");
}

#[test]
fn compile_while_emits_loop_back() {
    let func = compile("while (true) print 1;").expect("compiles");
    let ops = ops_of(&func);
    assert!(ops.contains(&OpCode::Loop));
    assert!(ops.contains(&OpCode::JumpIfFalse));
}

#[test]
fn compile_for_desugared_emits_while_structure() {
    let func = compile("for (var i = 0; i < 3; i = i + 1) print i;").expect("compiles");
    let ops = ops_of(&func);
    assert!(ops.contains(&OpCode::Loop));
    assert!(ops.contains(&OpCode::JumpIfFalse));
}

#[test]
fn compile_logical_or_short_circuits() {
    let func = compile("print true or false;").expect("compiles");
    let ops = ops_of(&func);
    let jumps = ops.iter().filter(|o| matches!(o, OpCode::Jump | OpCode::JumpIfFalse)).count();
    assert_eq!(jumps, 2, "or desugars to two jumps, got {ops:?}");
}

#[test]
fn compile_logical_and_short_circuits() {
    let func = compile("print true and false;").expect("compiles");
    let ops = ops_of(&func);
    assert!(ops.contains(&OpCode::JumpIfFalse));
}

#[test]
fn compile_function_declaration_emits_closure_op() {
    let src = "fun f() { return 1; } f();";
    let func = compile(src).expect("compiles");
    let ops = ops_of(&func);
    assert!(ops.contains(&OpCode::Closure), "expected Closure in {ops:?}");
    assert!(ops.contains(&OpCode::Call), "expected Call in {ops:?}");
}

#[test]
fn compile_parse_error_accumulates_messages_and_synchronizes() {
    let errs = compile("var = 1;").expect_err("fails");
    assert!(errs.iter().any(|m| m.contains("variable name")), "got {errs:?}");
}

#[test]
fn compile_return_at_top_level_errors() {
    let errs = compile("return 1;").expect_err("fails");
    assert!(errs.iter().any(|m| m.contains("top-level")), "got {errs:?}");
}

#[test]
fn compile_string_literal_stored_as_str_constant() {
    let func = compile("print \"hi\";").expect("compiles");
    let has_str = func.chunk.constants.iter().any(|v| matches!(v, Constant::Str(s) if s == "hi"));
    assert!(has_str, "expected 'hi' string constant in {:?}", func.chunk.constants);
}

// Further cases.

#[test]
fn compile_exact_bytes_of_a_global_definition() {
    let func = compile("var x = 1;").expect("compiles");
    // Constant "x" at 0, number at 1.
    assert_eq!(
        func.chunk.code,
        vec![
            OpCode::Constant.as_byte(),
            1,
            OpCode::DefineGlobal.as_byte(),
            0,
            OpCode::Nil.as_byte(),
            OpCode::Return.as_byte()
        ]
    );
    assert_eq!(func.chunk.lines, vec![1, 1, 1, 1, 1, 1]);
    assert!(matches!(&func.chunk.constants[0], Constant::Str(s) if s == "x"));
    assert!(matches!(&func.chunk.constants[1], Constant::Number(t) if t == "1"));
}

#[test]
fn compile_jump_offsets_are_patched() {
    let func = compile("if (true) print 1;").expect("compiles");
    let code = &func.chunk.code;
    // True, JumpIfFalse hi lo, Pop, Constant 0, Print, Jump hi lo, Pop, Nil, Return
    assert_eq!(code[1], OpCode::JumpIfFalse.as_byte());
    let then_jump = (code[2] as usize) * 256 + code[3] as usize;
    assert_eq!(then_jump, 7);
    assert_eq!(code[8], OpCode::Jump.as_byte());
    let else_jump = (code[9] as usize) * 256 + code[10] as usize;
    assert_eq!(else_jump, 1);
}

#[test]
fn compile_errors_are_framed_with_lines() {
    let errs = compile("print 1;\nvar = 2;\nprint ;").expect_err("fails");
    assert_eq!(
        errs,
        vec![
            "[line 2] Error at '=': Expect variable name.".to_string(),
            "[line 3] Error at ';': Expect expression.".to_string(),
        ]
    );
}

#[test]
fn compile_scanner_errors_are_reported() {
    let errs = compile("@").expect_err("fails");
    assert_eq!(errs, vec!["[line 1] Error: Unexpected character.".to_string()]);
}

fn b(op: OpCode) -> u8 {
    op.as_byte()
}

#[test]
fn compile_property_access_emits_get_property() {
    let func = compile("a.b;").expect("compiles");
    assert_eq!(
        func.chunk.code,
        vec![b(OpCode::GetGlobal), 0, b(OpCode::GetProperty), 1, b(OpCode::Pop), b(OpCode::Nil), b(OpCode::Return)]
    );
    assert!(matches!(&func.chunk.constants[1], Constant::Str(s) if s == "b"));
}

#[test]
fn compile_property_assignment_emits_set_property() {
    let func = compile("a.b = 1;").expect("compiles");
    assert_eq!(
        func.chunk.code,
        vec![
            b(OpCode::GetGlobal), 0, b(OpCode::Constant), 2, b(OpCode::SetProperty), 1, b(OpCode::Pop),
            b(OpCode::Nil), b(OpCode::Return),
        ]
    );
}

#[test]
fn compile_method_call_is_one_invoke() {
    let func = compile("a.f(1, 2);").expect("compiles");
    assert_eq!(
        func.chunk.code,
        vec![
            b(OpCode::GetGlobal), 0, b(OpCode::Constant), 2, b(OpCode::Constant), 3, b(OpCode::Invoke), 1, 2,
            b(OpCode::Pop), b(OpCode::Nil), b(OpCode::Return),
        ]
    );
}

#[test]
fn compile_class_binds_methods() {
    let func = compile("class A { m() { return this; } }").expect("compiles");
    assert_eq!(
        func.chunk.code,
        vec![
            b(OpCode::Class), 0, b(OpCode::DefineGlobal), 0, b(OpCode::GetGlobal), 1, b(OpCode::Closure), 3,
            b(OpCode::Method), 2, b(OpCode::Pop), b(OpCode::Nil), b(OpCode::Return),
        ]
    );
    let Constant::Function(m) = &func.chunk.constants[3] else {
        panic!("expected method constant, got {:?}", func.chunk.constants);
    };
    assert_eq!(m.name.as_deref(), Some("m"));
    assert_eq!(
        m.chunk.code,
        vec![b(OpCode::GetLocal), 0, b(OpCode::Return), b(OpCode::Nil), b(OpCode::Return)]
    );
}

#[test]
fn compile_initializer_returns_the_instance() {
    let func = compile("class A { init() {} }").expect("compiles");
    let Constant::Function(init) = &func.chunk.constants[3] else {
        panic!("expected initializer constant, got {:?}", func.chunk.constants);
    };
    assert_eq!(init.chunk.code, vec![b(OpCode::GetLocal), 0, b(OpCode::Return)]);
}

#[test]
fn compile_subclass_inherits_in_a_scope() {
    let func = compile("class B < A {}").expect("compiles");
    assert_eq!(
        func.chunk.code,
        vec![
            b(OpCode::Class), 0, b(OpCode::DefineGlobal), 0, b(OpCode::GetGlobal), 1, b(OpCode::GetGlobal), 2,
            b(OpCode::Inherit), b(OpCode::GetGlobal), 3, b(OpCode::Pop), b(OpCode::Pop), b(OpCode::Nil),
            b(OpCode::Return),
        ]
    );
}

#[test]
fn compile_super_call_is_one_super_invoke() {
    let func = compile("class A { f() {} } class B < A { f() { super.f(); } }").expect("compiles");
    let method = func
        .chunk
        .constants
        .iter()
        .filter_map(|c| match c {
            Constant::Function(f) => Some(f.clone()),
            _ => None,
        })
        .last()
        .expect("method of B");
    assert_eq!(method.upvalue_count, 1);
    assert_eq!(
        method.chunk.code,
        vec![
            b(OpCode::GetLocal), 0, b(OpCode::GetUpvalue), 0, b(OpCode::SuperInvoke), 0, 0, b(OpCode::Pop),
            b(OpCode::Nil), b(OpCode::Return),
        ]
    );
    assert!(ops_of(&func).contains(&OpCode::CloseUpvalue));
}

#[test]
fn compile_class_errors_are_located() {
    let cases = [
        ("this;", "[line 1] Error at 'this': Can't use 'this' outside of a class."),
        ("super.x;", "[line 1] Error at 'super': Can't use 'super' outside of a class."),
        ("class A { f() { super.f(); } }", "[line 1] Error at 'super': Can't use 'super' in a class with no superclass."),
        ("class A < A {}", "[line 1] Error at 'A': A class can't inherit from itself."),
        ("class A { init() { return 1; } }", "[line 1] Error at 'return': Can't return a value from an initializer."),
        ("class { }", "[line 1] Error at '{': Expect class name."),
        ("a.;", "[line 1] Error at ';': Expect property name after '.'."),
    ];
    for (source, expected) in cases {
        let errs = compile(source).expect_err(source);
        assert_eq!(errs, vec![expected.to_string()], "{source}");
    }
}

#[test]
fn compile_closure_captures_upvalue() {
    let func = compile("fun outer() { var x = 1; fun inner() { return x; } return inner; }").expect("compiles");
    let Constant::Function(outer) = &func.chunk.constants[1] else {
        panic!("expected outer function constant, got {:?}", func.chunk.constants);
    };
    assert_eq!(outer.name.as_deref(), Some("outer"));
    let inner = outer
        .chunk
        .constants
        .iter()
        .find_map(|c| match c {
            Constant::Function(f) => Some(f.clone()),
            _ => None,
        })
        .expect("inner function constant");
    assert_eq!(inner.upvalue_count, 1);
    let ops = ops_of(&inner);
    assert!(ops.contains(&OpCode::GetUpvalue), "got {ops:?}");
}

#[test]
fn compile_function_arity_counts_parameters() {
    let func = compile("fun add(a, b, c) { return a + b + c; }").expect("compiles");
    let Constant::Function(f) = &func.chunk.constants[1] else {
        panic!("expected function constant");
    };
    assert_eq!(f.arity, 3);
    assert!(f.chunk.code.ends_with(&[OpCode::Nil.as_byte(), OpCode::Return.as_byte()]));
}

#[test]
fn compile_local_in_own_initializer_errors() {
    let errs = compile("{ var a = a; }").expect_err("fails");
    assert_eq!(errs, vec!["[line 1] Error at 'a': Can't read local variable in its own initializer.".to_string()]);
}

#[test]
fn compile_script_is_unnamed_and_ends_with_return() {
    let func = compile("").expect("compiles");
    assert!(func.name.is_none());
    assert_eq!(func.arity, 0);
    assert_eq!(func.chunk.code, vec![OpCode::Nil.as_byte(), OpCode::Return.as_byte()]);
}

#[test]
fn get_rule_dot_continues_with_property_access() {
    let r = rlox::compiler::get_rule(rlox::vm_scanner::TokenType::Dot);
    assert_eq!(r.infix, Some(rlox::compiler::InfixRule::Dot));
    assert_eq!(r.precedence, rlox::compiler::Precedence::Call);
    assert_eq!(r.prefix, None);
}
