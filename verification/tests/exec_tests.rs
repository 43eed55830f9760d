use luacore::bytecode::ByteCode;
use luacore::error::{CompileError, LexError, LexFailKind, RuntimeError};
use luacore::lex::Token;
use luacore::parse::ParseProto;
use luacore::value::Value;
use luacore::vm::ExeState;

fn compile(src: &[u8]) -> ParseProto {
    ParseProto::load(src.to_vec()).unwrap()
}

fn run_source(src: &[u8]) -> Vec<u8> {
    let proto = compile(src);
    let mut vm = ExeState::new();
    vm.execute(&proto).unwrap();
    vm.output()
}

#[test]
fn local_declaration_and_print() {
    let proto = compile(b"local a = 10  print(a)");
    assert_eq!(
        proto.byte_codes,
        vec![
            ByteCode::LoadInt(0, 10),
            ByteCode::GetGlobal(1, 0),
            ByteCode::Move(2, 0),
            ByteCode::Call(1, 1),
        ]
    );
    let mut vm = ExeState::new();
    vm.execute(&proto).unwrap();
    assert_eq!(vm.output(), b"10\n".to_vec());
}

#[test]
fn print_string_argument() {
    assert_eq!(
        run_source(br#"print("hello, world!")"#),
        b"hello, world!\n".to_vec()
    );
    // the bare string-literal call form prints the same
    assert_eq!(
        run_source(br#"print "hello, world!""#),
        b"hello, world!\n".to_vec()
    );
}

#[test]
fn global_to_global_assignment() {
    assert_eq!(run_source(b"x = 1  y = x  print(y)"), b"1\n".to_vec());
}

#[test]
fn global_copy_is_by_value() {
    // reassigning x afterwards must not change y
    assert_eq!(
        run_source(b"x = 1  y = x  x = 2  print(y)  print(x)"),
        b"1\n2\n".to_vec()
    );
}

#[test]
fn constant_pool_dedup_same_name() {
    // "a" is interned once although two statements mention it
    let proto = compile(b"a = 5  b = a");
    assert_eq!(proto.constants.len(), 3);
    assert_eq!(proto.constants[0], Value::from_bytes(b"a".to_vec()));
    assert_eq!(proto.constants[1], Value::Integer(5));
    assert_eq!(proto.constants[2], Value::from_bytes(b"b".to_vec()));
}

#[test]
fn constant_pool_dedup_same_literal() {
    let proto = compile(b"x = 7  y = 7");
    assert_eq!(proto.constants.len(), 3);
    assert_eq!(proto.constants[1], Value::Integer(7));
}

#[test]
fn integer_immediate_folding() {
    let proto = compile(b"local a = 32767  local b = 32768  print(a)  print(b)");
    assert!(matches!(proto.byte_codes[0], ByteCode::LoadInt(0, 32767)));
    assert!(matches!(proto.byte_codes[1], ByteCode::LoadConst(1, _)));
    let mut vm = ExeState::new();
    vm.execute(&proto).unwrap();
    assert_eq!(vm.output(), b"32767\n32768\n".to_vec());
}

#[test]
fn calling_undefined_global_fails() {
    let proto = compile(b"foo(1)");
    let mut vm = ExeState::new();
    let err = vm.execute(&proto).unwrap_err();
    assert!(matches!(err, RuntimeError::NotCallable(Value::Nil)));
}

#[test]
fn calling_a_copied_function_value_works() {
    assert_eq!(run_source(b"x = print  x(1)"), b"1\n".to_vec());
}

#[test]
fn float_literal_prints_its_text() {
    assert_eq!(run_source(b"print(123.45)"), b"123.45\n".to_vec());
}

#[test]
fn nil_true_false_print() {
    assert_eq!(
        run_source(b"print(nil)  print(true)  print(false)"),
        b"nil\ntrue\nfalse\n".to_vec()
    );
}

#[test]
fn local_shadowing_uses_latest() {
    assert_eq!(
        run_source(b"local a = 1  local a = 2  print(a)"),
        b"2\n".to_vec()
    );
}

#[test]
fn lex_error_no_token() {
    let err = ParseProto::load(b"$".to_vec()).unwrap_err();
    assert_eq!(
        err,
        CompileError::Lex(LexError { kind: LexFailKind::NoTokenMatch, pos: 0 })
    );
}

#[test]
fn lex_error_unterminated_string() {
    let err = ParseProto::load(br#"print "abc"#.to_vec()).unwrap_err();
    assert_eq!(
        err,
        CompileError::Lex(LexError { kind: LexFailKind::UnterminatedString, pos: 6 })
    );
}

#[test]
fn lex_error_integer_out_of_range() {
    let err = ParseProto::load(b"x = 99999999999999999999".to_vec()).unwrap_err();
    assert_eq!(
        err,
        CompileError::Lex(LexError { kind: LexFailKind::IntegerOutOfRange, pos: 4 })
    );
}

#[test]
fn compile_error_unexpected_token() {
    let err = ParseProto::load(b"+".to_vec()).unwrap_err();
    assert_eq!(err, CompileError::UnexpectedToken(Token::Add));
}

#[test]
fn compile_error_expected_variable() {
    let err = ParseProto::load(b"local 1 = 2".to_vec()).unwrap_err();
    assert_eq!(err, CompileError::ExpectedVariable(Token::Integer(1)));
}

#[test]
fn compile_error_expected_assign() {
    let err = ParseProto::load(b"local a b".to_vec()).unwrap_err();
    assert_eq!(err, CompileError::ExpectedAssign(Token::Name(b"b".to_vec())));
}

#[test]
fn compile_error_expected_par_r() {
    let err = ParseProto::load(b"print(1 1".to_vec()).unwrap_err();
    assert_eq!(err, CompileError::ExpectedParR(Token::Integer(1)));
}

#[test]
fn compile_error_expected_string() {
    let err = ParseProto::load(b"print + 1".to_vec()).unwrap_err();
    assert_eq!(err, CompileError::ExpectedString(Token::Add));
}

#[test]
fn compile_error_invalid_argument() {
    let err = ParseProto::load(b"x = )".to_vec()).unwrap_err();
    assert_eq!(err, CompileError::InvalidArgument(Token::ParR));
    let err = ParseProto::load(b"local a = )".to_vec()).unwrap_err();
    assert_eq!(err, CompileError::InvalidArgument(Token::ParR));
}

#[test]
fn runtime_error_const_index_out_of_bounds() {
    let proto = ParseProto { constants: Vec::new(), byte_codes: vec![ByteCode::LoadConst(0, 0)] };
    let mut vm = ExeState::new();
    let err = vm.execute(&proto).unwrap_err();
    assert!(matches!(err, RuntimeError::ConstIndexOutOfBounds(0)));
}

#[test]
fn runtime_error_stack_index_out_of_bounds() {
    let proto = ParseProto { constants: Vec::new(), byte_codes: vec![ByteCode::Move(0, 5)] };
    let mut vm = ExeState::new();
    let err = vm.execute(&proto).unwrap_err();
    assert!(matches!(err, RuntimeError::StackIndexOutOfBounds(5)));
}

#[test]
fn runtime_error_global_key_not_string() {
    let proto = ParseProto {
        constants: vec![Value::Integer(1)],
        byte_codes: vec![ByteCode::GetGlobal(0, 0)],
    };
    let mut vm = ExeState::new();
    let err = vm.execute(&proto).unwrap_err();
    assert!(matches!(err, RuntimeError::GlobalKeyNotString(0)));
}

#[test]
fn get_global_reads_name_constants() {
    let proto = compile(b"x = 1");
    assert_eq!(proto.get_global(0).unwrap(), b"x".to_vec());
    assert!(proto.get_global(1).is_err());
    assert!(proto.get_global(99).is_err());
}

#[test]
fn empty_program_runs_and_prints_nothing() {
    let proto = compile(b"   ");
    assert_eq!(proto.byte_codes.len(), 0);
    assert_eq!(proto.constants.len(), 0);
    let mut vm = ExeState::new();
    vm.execute(&proto).unwrap();
    assert_eq!(vm.output(), Vec::<u8>::new());
}
