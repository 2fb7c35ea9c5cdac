use rlox::chunk::{Chunk, OpCode};
use rlox::gc::{Obj, GC};
use rlox::value::Value;
use rlox::value::Value::{Boolean, Nil, Number};
use rlox::vm::{InterpreterError, VMConfig, VM};

fn quiet_config() -> VMConfig {
    VMConfig { trace_instructions: false, trace_stack: false }
}

fn run_chunk_with_gc(chunk: &Chunk, gc: &mut GC) -> (Result<Value, InterpreterError>, String) {
    let mut vm = VM::new(quiet_config());
    let result = vm.interpret_chunk(chunk, gc);
    (result, vm.output().clone())
}

fn run_chunk(chunk: &Chunk) -> (Result<Value, InterpreterError>, String) {
    let mut gc = GC::new();
    run_chunk_with_gc(chunk, &mut gc)
}

fn runtime_error(message: &str) -> InterpreterError {
    InterpreterError::RuntimeError(String::from(message))
}

#[test]
fn return_wo_constant() {
    let mut chunk = Chunk::new();
    chunk.write_opcode(OpCode::Return, 1);
    let (result, output) = run_chunk(&chunk);
    assert_eq!(result, Ok(Value::Nil));
    assert_eq!(output, "");
}

#[test]
fn constant_wo_return() {
    let mut chunk = Chunk::new();
    let const_ref = chunk.add_const(Number(12));
    chunk.ref_const(const_ref, OpCode::Constant, OpCode::ConstantLong, 1);
    let (result, _) = run_chunk(&chunk);
    assert_eq!(result, Err(runtime_error("Read byte out of bounds")));
}

#[test]
fn constants_break_stack() {
    let mut chunk = Chunk::new();
    for i in 0..257 {
        let const_ref = chunk.add_const(Number(i as i64));
        chunk.ref_const(const_ref, OpCode::Constant, OpCode::ConstantLong, i);
    }
    let (result, _) = run_chunk(&chunk);
    assert_eq!(result, Err(runtime_error("Stack overflow")));
}

#[test]
fn return_w_number_constant() {
    let mut chunk = Chunk::new();
    let const_ref = chunk.add_const(Number(12));
    chunk.ref_const(const_ref, OpCode::Constant, OpCode::ConstantLong, 1);
    chunk.write_opcode(OpCode::Return, 2);
    let (result, _) = run_chunk(&chunk);
    assert_eq!(result, Ok(Number(12)));
}

#[test]
fn return_w_bool() {
    let mut chunk = Chunk::new();
    chunk.write_opcode(OpCode::True, 1);
    chunk.write_opcode(OpCode::Return, 2);
    let (result, _) = run_chunk(&chunk);
    assert_eq!(result, Ok(Boolean(true)));
}

#[test]
fn return_w_nil() {
    let mut chunk = Chunk::new();
    chunk.write_opcode(OpCode::Nil, 1);
    chunk.write_opcode(OpCode::Return, 2);
    let (result, _) = run_chunk(&chunk);
    assert_eq!(result, Ok(Nil));
}

#[test]
fn return_w_string_literal() {
    let mut gc = GC::new();
    let mut chunk = Chunk::new();
    let const_ref = chunk.add_const(Value::Object(gc.alloc_string("hello world".to_string())));
    chunk.ref_const(const_ref, OpCode::Constant, OpCode::ConstantLong, 1);
    chunk.write_opcode(OpCode::Return, 2);
    let (result, _) = run_chunk_with_gc(&chunk, &mut gc);
    match result {
        Ok(Value::Object(obj)) => {
            let Obj::String(s) = gc.get_obj(obj);
            assert_eq!(s.get_value(), &"hello world".to_string());
        }
        _ => panic!("Expected object"),
    }
}

#[test]
fn return_w_many_constants() {
    let mut chunk = Chunk::new();
    for i in 0..256 {
        let const_ref = chunk.add_const(Number(i as i64));
        chunk.ref_const(const_ref, OpCode::Constant, OpCode::ConstantLong, i);
    }
    chunk.write_opcode(OpCode::Return, 256);
    let (result, _) = run_chunk(&chunk);
    assert_eq!(result, Ok(Number(255)));
}

#[test]
fn add_numbers() {
    let mut chunk = Chunk::new();
    let const_ref = chunk.add_const(Number(1));
    chunk.ref_const(const_ref, OpCode::Constant, OpCode::ConstantLong, 1);
    let const_ref = chunk.add_const(Number(1));
    chunk.ref_const(const_ref, OpCode::Constant, OpCode::ConstantLong, 2);
    chunk.write_opcode(OpCode::Add, 3);
    chunk.write_opcode(OpCode::Return, 4);
    let (result, _) = run_chunk(&chunk);
    assert_eq!(result, Ok(Number(2)));
}

#[test]
fn add_number_nil() {
    let mut chunk = Chunk::new();
    let const_ref = chunk.add_const(Nil);
    chunk.ref_const(const_ref, OpCode::Constant, OpCode::ConstantLong, 1);
    let const_ref = chunk.add_const(Number(1));
    chunk.ref_const(const_ref, OpCode::Constant, OpCode::ConstantLong, 2);
    chunk.write_opcode(OpCode::Add, 3);
    chunk.write_opcode(OpCode::Return, 4);
    let (result, _) = run_chunk(&chunk);
    assert_eq!(result, Err(runtime_error("Invalid type for addition: nil 1")));
}

#[test]
fn add_strings() {
    let mut gc = GC::new();
    let mut chunk = Chunk::new();
    let const_ref = chunk.add_const(Value::Object(gc.alloc_string("hello".to_string())));
    chunk.ref_const(const_ref, OpCode::Constant, OpCode::ConstantLong, 1);
    let const_ref = chunk.add_const(Value::Object(gc.alloc_string("world".to_string())));
    chunk.ref_const(const_ref, OpCode::Constant, OpCode::ConstantLong, 2);
    chunk.write_opcode(OpCode::Add, 3);
    chunk.write_opcode(OpCode::Return, 4);
    let (result, _) = run_chunk_with_gc(&chunk, &mut gc);
    match result {
        Ok(Value::Object(obj)) => {
            let Obj::String(s) = gc.get_obj(obj);
            assert_eq!(s.get_value(), &"helloworld".to_string());
        }
        _ => panic!("Expected object"),
    }
    drop(gc);
}

#[test]
fn concatenation_result_is_interned() {
    let mut gc = GC::new();
    let mut chunk = Chunk::new();
    let expected = gc.alloc_string("helloworld".to_string());
    let const_ref = chunk.add_const(Value::Object(gc.alloc_string("hello".to_string())));
    chunk.ref_const(const_ref, OpCode::Constant, OpCode::ConstantLong, 1);
    let const_ref = chunk.add_const(Value::Object(gc.alloc_string("world".to_string())));
    chunk.ref_const(const_ref, OpCode::Constant, OpCode::ConstantLong, 2);
    chunk.write_opcode(OpCode::Add, 3);
    chunk.write_opcode(OpCode::Return, 4);
    let before = gc.obj_count();
    let (result, _) = run_chunk_with_gc(&chunk, &mut gc);
    // the concatenation reuses the already-interned object
    assert_eq!(result, Ok(Value::Object(expected)));
    assert_eq!(gc.obj_count(), before);
}

#[test]
fn subtract_number_nil() {
    let mut chunk = Chunk::new();
    let const_ref = chunk.add_const(Nil);
    chunk.ref_const(const_ref, OpCode::Constant, OpCode::ConstantLong, 1);
    let const_ref = chunk.add_const(Number(1));
    chunk.ref_const(const_ref, OpCode::Constant, OpCode::ConstantLong, 2);
    chunk.write_opcode(OpCode::Subtract, 3);
    chunk.write_opcode(OpCode::Return, 4);
    let (result, _) = run_chunk(&chunk);
    assert_eq!(result, Err(runtime_error("Invalid type for subtraction: nil 1")));
}

#[test]
fn subtract_numbers() {
    let mut chunk = Chunk::new();
    let const_ref = chunk.add_const(Number(12));
    chunk.ref_const(const_ref, OpCode::Constant, OpCode::ConstantLong, 1);
    let const_ref = chunk.add_const(Number(34));
    chunk.ref_const(const_ref, OpCode::Constant, OpCode::ConstantLong, 2);
    chunk.write_opcode(OpCode::Subtract, 3);
    chunk.write_opcode(OpCode::Return, 4);
    let (result, _) = run_chunk(&chunk);
    assert_eq!(result, Ok(Number(-22)));
}

#[test]
fn multiply_numbers() {
    let mut chunk = Chunk::new();
    let const_ref = chunk.add_const(Number(3));
    chunk.ref_const(const_ref, OpCode::Constant, OpCode::ConstantLong, 1);
    let const_ref = chunk.add_const(Number(-5));
    chunk.ref_const(const_ref, OpCode::Constant, OpCode::ConstantLong, 2);
    chunk.write_opcode(OpCode::Multiply, 3);
    chunk.write_opcode(OpCode::Return, 4);
    let (result, _) = run_chunk(&chunk);
    assert_eq!(result, Ok(Number(-15)));
}

#[test]
fn multiply_number_nil() {
    let mut chunk = Chunk::new();
    let const_ref = chunk.add_const(Nil);
    chunk.ref_const(const_ref, OpCode::Constant, OpCode::ConstantLong, 1);
    let const_ref = chunk.add_const(Number(1));
    chunk.ref_const(const_ref, OpCode::Constant, OpCode::ConstantLong, 2);
    chunk.write_opcode(OpCode::Multiply, 3);
    chunk.write_opcode(OpCode::Return, 4);
    let (result, _) = run_chunk(&chunk);
    assert_eq!(
        result,
        Err(runtime_error("Invalid type for multiplication: nil 1"))
    );
}

#[test]
fn divide_numbers() {
    let mut chunk = Chunk::new();
    let const_ref = chunk.add_const(Number(10));
    chunk.ref_const(const_ref, OpCode::Constant, OpCode::ConstantLong, 1);
    let const_ref = chunk.add_const(Number(2));
    chunk.ref_const(const_ref, OpCode::Constant, OpCode::ConstantLong, 2);
    chunk.write_opcode(OpCode::Divide, 3);
    chunk.write_opcode(OpCode::Return, 4);
    let (result, _) = run_chunk(&chunk);
    assert_eq!(result, Ok(Number(5)));
}

#[test]
fn divide_number_nil() {
    let mut chunk = Chunk::new();
    let const_ref = chunk.add_const(Nil);
    chunk.ref_const(const_ref, OpCode::Constant, OpCode::ConstantLong, 1);
    let const_ref = chunk.add_const(Number(1));
    chunk.ref_const(const_ref, OpCode::Constant, OpCode::ConstantLong, 2);
    chunk.write_opcode(OpCode::Divide, 3);
    chunk.write_opcode(OpCode::Return, 4);
    let (result, _) = run_chunk(&chunk);
    assert_eq!(result, Err(runtime_error("Invalid type for division: nil 1")));
}

#[test]
fn negate_number() {
    let mut chunk = Chunk::new();
    let const_ref = chunk.add_const(Number(12));
    chunk.ref_const(const_ref, OpCode::Constant, OpCode::ConstantLong, 1);
    chunk.write_opcode(OpCode::Negate, 2);
    chunk.write_opcode(OpCode::Return, 3);
    let (result, output) = run_chunk(&chunk);
    assert_eq!(result, Ok(Number(-12)));
    assert_eq!(output, "");
}

#[test]
fn negate_nil() {
    let mut chunk = Chunk::new();
    let const_ref = chunk.add_const(Nil);
    chunk.ref_const(const_ref, OpCode::Constant, OpCode::ConstantLong, 1);
    chunk.write_opcode(OpCode::Negate, 2);
    chunk.write_opcode(OpCode::Return, 3);
    let (result, _) = run_chunk(&chunk);
    assert_eq!(result, Err(runtime_error("Invalid type for negation: nil")));
}

#[test]
fn not_true() {
    let mut chunk = Chunk::new();
    let const_ref = chunk.add_const(Boolean(true));
    chunk.ref_const(const_ref, OpCode::Constant, OpCode::ConstantLong, 1);
    chunk.write_opcode(OpCode::Not, 2);
    chunk.write_opcode(OpCode::Return, 3);
    let (result, output) = run_chunk(&chunk);
    assert_eq!(result, Ok(Boolean(false)));
    assert_eq!(output, "");
}

#[test]
fn not_nil() {
    let mut chunk = Chunk::new();
    let const_ref = chunk.add_const(Nil);
    chunk.ref_const(const_ref, OpCode::Constant, OpCode::ConstantLong, 1);
    chunk.write_opcode(OpCode::Not, 2);
    chunk.write_opcode(OpCode::Return, 3);
    let (result, output) = run_chunk(&chunk);
    assert_eq!(result, Ok(Boolean(true)));
    assert_eq!(output, "");
}

#[test]
fn not_zero() {
    let mut chunk = Chunk::new();
    let const_ref = chunk.add_const(Number(0));
    chunk.ref_const(const_ref, OpCode::Constant, OpCode::ConstantLong, 1);
    chunk.write_opcode(OpCode::Not, 2);
    chunk.write_opcode(OpCode::Return, 3);
    let (result, output) = run_chunk(&chunk);
    assert_eq!(result, Ok(Boolean(false)));
    assert_eq!(output, "");
}

#[test]
fn not_one() {
    let mut chunk = Chunk::new();
    let const_ref = chunk.add_const(Number(1));
    chunk.ref_const(const_ref, OpCode::Constant, OpCode::ConstantLong, 1);
    chunk.write_opcode(OpCode::Not, 2);
    chunk.write_opcode(OpCode::Return, 3);
    let (result, output) = run_chunk(&chunk);
    assert_eq!(result, Ok(Boolean(false)));
    assert_eq!(output, "");
}

#[test]
fn equal_true() {
    let mut chunk = Chunk::new();
    let const_ref = chunk.add_const(Number(1));
    chunk.ref_const(const_ref, OpCode::Constant, OpCode::ConstantLong, 1);
    let const_ref = chunk.add_const(Number(1));
    chunk.ref_const(const_ref, OpCode::Constant, OpCode::ConstantLong, 2);
    chunk.write_opcode(OpCode::Equal, 3);
    chunk.write_opcode(OpCode::Return, 4);
    let (result, output) = run_chunk(&chunk);
    assert_eq!(result, Ok(Boolean(true)));
    assert_eq!(output, "");
}

#[test]
fn equal_false() {
    let mut chunk = Chunk::new();
    let const_ref = chunk.add_const(Number(1));
    chunk.ref_const(const_ref, OpCode::Constant, OpCode::ConstantLong, 1);
    let const_ref = chunk.add_const(Number(2));
    chunk.ref_const(const_ref, OpCode::Constant, OpCode::ConstantLong, 2);
    chunk.write_opcode(OpCode::Equal, 3);
    chunk.write_opcode(OpCode::Return, 4);
    let (result, output) = run_chunk(&chunk);
    assert_eq!(result, Ok(Boolean(false)));
    assert_eq!(output, "");
}

#[test]
fn greater_true() {
    let mut chunk = Chunk::new();
    let const_ref = chunk.add_const(Number(2));
    chunk.ref_const(const_ref, OpCode::Constant, OpCode::ConstantLong, 1);
    let const_ref = chunk.add_const(Number(1));
    chunk.ref_const(const_ref, OpCode::Constant, OpCode::ConstantLong, 2);
    chunk.write_opcode(OpCode::Greater, 3);
    chunk.write_opcode(OpCode::Return, 4);
    let (result, output) = run_chunk(&chunk);
    assert_eq!(result, Ok(Boolean(true)));
    assert_eq!(output, "");
}

#[test]
fn greater_false() {
    let mut chunk = Chunk::new();
    let const_ref = chunk.add_const(Number(1));
    chunk.ref_const(const_ref, OpCode::Constant, OpCode::ConstantLong, 1);
    let const_ref = chunk.add_const(Number(1));
    chunk.ref_const(const_ref, OpCode::Constant, OpCode::ConstantLong, 2);
    chunk.write_opcode(OpCode::Greater, 3);
    chunk.write_opcode(OpCode::Return, 4);
    let (result, output) = run_chunk(&chunk);
    assert_eq!(result, Ok(Boolean(false)));
    assert_eq!(output, "");
}

#[test]
fn less_true() {
    let mut chunk = Chunk::new();
    let const_ref = chunk.add_const(Number(1));
    chunk.ref_const(const_ref, OpCode::Constant, OpCode::ConstantLong, 1);
    let const_ref = chunk.add_const(Number(2));
    chunk.ref_const(const_ref, OpCode::Constant, OpCode::ConstantLong, 2);
    chunk.write_opcode(OpCode::Less, 3);
    chunk.write_opcode(OpCode::Return, 4);
    let (result, output) = run_chunk(&chunk);
    assert_eq!(result, Ok(Boolean(true)));
    assert_eq!(output, "");
}

#[test]
fn less_false() {
    let mut chunk = Chunk::new();
    let const_ref = chunk.add_const(Number(1));
    chunk.ref_const(const_ref, OpCode::Constant, OpCode::ConstantLong, 1);
    let const_ref = chunk.add_const(Number(1));
    chunk.ref_const(const_ref, OpCode::Constant, OpCode::ConstantLong, 2);
    chunk.write_opcode(OpCode::Less, 3);
    chunk.write_opcode(OpCode::Return, 4);
    let (result, output) = run_chunk(&chunk);
    assert_eq!(result, Ok(Boolean(false)));
    assert_eq!(output, "");
}

#[test]
fn comparing_non_numbers_is_a_runtime_error() {
    let mut chunk = Chunk::new();
    chunk.write_opcode(OpCode::Nil, 1);
    chunk.write_opcode(OpCode::True, 1);
    chunk.write_opcode(OpCode::Less, 1);
    chunk.write_opcode(OpCode::Return, 2);
    let (result, _) = run_chunk(&chunk);
    assert_eq!(
        result,
        Err(runtime_error("Invalid type for comparison: nil true"))
    );
}

#[test]
fn pop_from_empty_stack_underflows() {
    let mut chunk = Chunk::new();
    chunk.write_opcode(OpCode::Pop, 1);
    let (result, _) = run_chunk(&chunk);
    assert_eq!(result, Err(runtime_error("Stack underflow")));
}

#[test]
fn unknown_opcode_is_reported_with_its_byte() {
    let mut chunk = Chunk::new();
    chunk.write_byte(77, 1);
    let (result, _) = run_chunk(&chunk);
    assert_eq!(result, Err(runtime_error("Unknown opcode: 77")));
}

#[test]
fn simple_print_number() {
    let mut chunk = Chunk::new();
    let const_ref = chunk.add_const(Number(12));
    chunk.ref_const(const_ref, OpCode::Constant, OpCode::ConstantLong, 1);
    chunk.write_opcode(OpCode::Print, 1);
    chunk.write_opcode(OpCode::Return, 2);
    let (result, output) = run_chunk(&chunk);
    assert_eq!(result, Ok(Nil));
    assert_eq!(output, "12\n");
}

#[test]
fn simple_print_string() {
    let mut gc = GC::new();
    let mut chunk = Chunk::new();
    let const_ref = chunk.add_const(Value::Object(gc.alloc_string("hello world".to_string())));
    chunk.ref_const(const_ref, OpCode::Constant, OpCode::ConstantLong, 1);
    chunk.write_opcode(OpCode::Print, 1);
    chunk.write_opcode(OpCode::Return, 2);
    let (result, output) = run_chunk_with_gc(&chunk, &mut gc);
    assert_eq!(result, Ok(Nil));
    assert_eq!(output, "\"hello world\"\n");
}

#[test]
fn simple_expression_statement() {
    let mut chunk = Chunk::new();
    let const_ref = chunk.add_const(Number(12));
    chunk.ref_const(const_ref, OpCode::Constant, OpCode::ConstantLong, 1);
    let const_ref = chunk.add_const(Number(34));
    chunk.ref_const(const_ref, OpCode::Constant, OpCode::ConstantLong, 2);
    chunk.write_opcode(OpCode::Add, 1);
    chunk.write_opcode(OpCode::Pop, 2);
    chunk.write_opcode(OpCode::Return, 3);
    let (result, _) = run_chunk(&chunk);
    assert_eq!(result, Ok(Nil));
}

#[test]
fn global_var_declaration() {
    let mut gc = GC::new();
    let mut chunk = Chunk::new();
    let const_ref = chunk.add_const(Number(12));
    chunk.ref_const(const_ref, OpCode::Constant, OpCode::ConstantLong, 1);
    let const_ref = chunk.add_const(Value::Object(gc.alloc_string("x".to_string())));
    chunk.ref_const(const_ref, OpCode::DefineGlobal, OpCode::DefineGlobalLong, 1);
    chunk.write_opcode(OpCode::Return, 2);
    let (result, _) = run_chunk_with_gc(&chunk, &mut gc);
    assert_eq!(result, Ok(Nil));
}

#[test]
fn global_var_declaration_and_read() {
    let mut gc = GC::new();
    let mut chunk = Chunk::new();
    let const_ref = chunk.add_const(Number(12));
    chunk.ref_const(const_ref, OpCode::Constant, OpCode::ConstantLong, 1);
    let const_ref = chunk.add_const(Value::Object(gc.alloc_string("x".to_string())));
    chunk.ref_const(const_ref, OpCode::DefineGlobal, OpCode::DefineGlobalLong, 1);
    let const_ref = chunk.add_const(Value::Object(gc.alloc_string("x".to_string())));
    chunk.ref_const(const_ref, OpCode::Get, OpCode::GetLong, 1);
    chunk.write_opcode(OpCode::Return, 2);
    let (result, _) = run_chunk_with_gc(&chunk, &mut gc);
    assert_eq!(result, Ok(Number(12)));
}
