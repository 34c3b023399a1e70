use rlox::status::InterpretResult;

#[test]
fn status_exit_codes_follow_sysexits() {
    assert_eq!(InterpretResult::Finished.exit_status(), 0);
    assert_eq!(InterpretResult::CompileError.exit_status(), 65);
    assert_eq!(InterpretResult::RuntimeError.exit_status(), 70);
}
