use rlox::chunk::{Chunk, OpCode};
use rlox::compiler::compile;
use rlox::gc::{Obj, GC};
use rlox::value::Value;
use rlox::vm::InterpreterError;

fn test_compile(program: &str) -> (Result<Chunk, InterpreterError>, GC) {
    let mut gc = GC::new();
    let source = String::from(program);
    let result = compile(&source, &mut gc);
    (result, gc)
}

fn test_compile_ok(program: &str) -> (Chunk, GC) {
    let (result, gc) = test_compile(program);
    assert!(result.is_ok());
    (result.unwrap(), gc)
}

fn assert_string_const(chunk: &Chunk, gc: &GC, index: usize, expected: &str) {
    match chunk.get_constant(index) {
        Value::Object(o) => {
            let Obj::String(s) = gc.get_obj(o);
            assert_eq!(s.get_value(), &expected.to_string());
        }
        _ => panic!("Expect string object"),
    }
}

fn b(op: OpCode) -> u8 {
    op.as_byte()
}

#[test]
fn can_use_gc_after_compiling() {
    let mut gc = GC::new();
    let _ = compile(&"true".to_string(), &mut gc);
    gc.alloc_string("Hello".to_string());
}

#[test]
fn number_literal() {
    let (chunk, _) = test_compile_ok("123;");
    assert_eq!(chunk.get_constant(0), Value::Number(123));
    let expect_code = [b(OpCode::Constant), 0, b(OpCode::Pop), b(OpCode::Return)];
    assert_eq!(chunk.get_code(), expect_code);
}

#[test]
fn true_literal() {
    let (chunk, _) = test_compile_ok("true;");
    let expect_code = [b(OpCode::True), b(OpCode::Pop), b(OpCode::Return)];
    assert_eq!(chunk.get_code(), expect_code);
}

#[test]
fn false_literal() {
    let (chunk, _) = test_compile_ok("false;");
    let expect_code = [b(OpCode::False), b(OpCode::Pop), b(OpCode::Return)];
    assert_eq!(chunk.get_code(), expect_code);
}

#[test]
fn nil_literal() {
    let (chunk, _) = test_compile_ok("nil;");
    let expect_code = [b(OpCode::Nil), b(OpCode::Pop), b(OpCode::Return)];
    assert_eq!(chunk.get_code(), expect_code);
}

#[test]
fn string_literal() {
    let (chunk, gc) = test_compile_ok(r#""hello world";"#);
    let expect_code = [b(OpCode::Constant), 0, b(OpCode::Pop), b(OpCode::Return)];
    assert_eq!(chunk.get_code(), expect_code);
    assert_string_const(&chunk, &gc, 0, "hello world");
    drop(gc);
}

#[test]
fn negate() {
    let (chunk, _) = test_compile_ok("-123;");
    assert_eq!(chunk.get_constant(0), Value::Number(123));
    let expect_code = [
        b(OpCode::Constant),
        0,
        b(OpCode::Negate),
        b(OpCode::Pop),
        b(OpCode::Return),
    ];
    assert_eq!(chunk.get_code(), expect_code);
}

#[test]
fn not() {
    let (chunk, _) = test_compile_ok("!true;");
    let expect_code = [b(OpCode::True), b(OpCode::Not), b(OpCode::Pop), b(OpCode::Return)];
    assert_eq!(chunk.get_code(), expect_code);
}

#[test]
fn equal_equal() {
    let (chunk, _) = test_compile_ok("123 == 123;");
    assert_eq!(chunk.get_constant(0), Value::Number(123));
    assert_eq!(chunk.get_constant(1), Value::Number(123));
    let expect_code = [
        b(OpCode::Constant),
        0,
        b(OpCode::Constant),
        1,
        b(OpCode::Equal),
        b(OpCode::Pop),
        b(OpCode::Return),
    ];
    assert_eq!(chunk.get_code(), expect_code);
}

#[test]
fn bang_equal() {
    let (chunk, _) = test_compile_ok("123 != 123;");
    assert_eq!(chunk.get_constant(0), Value::Number(123));
    assert_eq!(chunk.get_constant(1), Value::Number(123));
    let expect_code = [
        b(OpCode::Constant),
        0,
        b(OpCode::Constant),
        1,
        b(OpCode::Equal),
        b(OpCode::Not),
        b(OpCode::Pop),
        b(OpCode::Return),
    ];
    assert_eq!(chunk.get_code(), expect_code);
}

#[test]
fn greater() {
    let (chunk, _) = test_compile_ok("123 > 123;");
    assert_eq!(chunk.get_constant(0), Value::Number(123));
    assert_eq!(chunk.get_constant(1), Value::Number(123));
    let expect_code = [
        b(OpCode::Constant),
        0,
        b(OpCode::Constant),
        1,
        b(OpCode::Greater),
        b(OpCode::Pop),
        b(OpCode::Return),
    ];
    assert_eq!(chunk.get_code(), expect_code);
}

#[test]
fn expression_statement() {
    let (chunk, _) = test_compile_ok("123;");
    assert_eq!(chunk.get_constant(0), Value::Number(123));
    let expect_code = [b(OpCode::Constant), 0, b(OpCode::Pop), b(OpCode::Return)];
    assert_eq!(chunk.get_code(), expect_code);
}

#[test]
fn print_statement() {
    let (chunk, _) = test_compile_ok("print 123;");
    assert_eq!(chunk.get_constant(0), Value::Number(123));
    let expect_code = [b(OpCode::Constant), 0, b(OpCode::Print), b(OpCode::Return)];
    assert_eq!(chunk.get_code(), expect_code);
}

#[test]
fn global_var_declaration_wo_initializer() {
    let (chunk, gc) = test_compile_ok("var x;");
    assert_string_const(&chunk, &gc, 0, "x");
    let expect_code = [b(OpCode::Nil), b(OpCode::DefineGlobal), 0, b(OpCode::Return)];
    assert_eq!(chunk.get_code(), expect_code);
}

#[test]
fn global_var_declaration_with_init() {
    let (chunk, gc) = test_compile_ok("var x = 123;");
    assert_string_const(&chunk, &gc, 0, "x");
    assert_eq!(chunk.get_constant(1), Value::Number(123));
    let expect_code = [
        b(OpCode::Constant),
        1,
        b(OpCode::DefineGlobal),
        0,
        b(OpCode::Return),
    ];
    assert_eq!(chunk.get_code(), expect_code);
}

#[test]
fn global_var_read() {
    let (chunk, gc) = test_compile_ok("var x = 123; x;");
    assert_string_const(&chunk, &gc, 0, "x");
    assert_eq!(chunk.get_constant(1), Value::Number(123));
    assert_string_const(&chunk, &gc, 2, "x");
    let expect_code = [
        b(OpCode::Constant),
        1,
        b(OpCode::DefineGlobal),
        0,
        b(OpCode::Get),
        2,
        b(OpCode::Pop),
        b(OpCode::Return),
    ];
    assert_eq!(chunk.get_code(), expect_code);
}

#[test]
fn empty_source_is_a_compile_error() {
    let (result, _) = test_compile("");
    match result {
        Err(InterpreterError::CompileError(errors)) => {
            assert!(errors.len() > 0);
        }
        _ => panic!("Expected a compile error for empty source"),
    }
}

#[test]
fn keywords_outside_the_surface_are_parse_errors() {
    let (result, _) = test_compile("if;");
    assert!(result.is_err());
    let (result, _) = test_compile("while;");
    assert!(result.is_err());
}

#[test]
fn several_errors_are_collected() {
    let (result, _) = test_compile(") ; var ;");
    match result {
        Err(InterpreterError::CompileError(errors)) => {
            assert!(errors.len() >= 2);
        }
        _ => panic!("Expected compile errors"),
    }
}
