use rlox::chunk::{Chunk, OpCode};
use rlox::debug::disassemble_chunk;
use rlox::gc::GC;
use rlox::value::Value;

#[test]
fn retrn() {
    let mut chunk = Chunk::new();
    chunk.write_opcode(OpCode::Return, 1);
    let result = disassemble_chunk(&chunk, &GC::new(), "test chunk");
    assert_eq!(
        result,
        String::from(
            "== test chunk ==\n\
            0000    1 OP_RETURN\n"
        )
    );
}

#[test]
fn debug_constant() {
    let mut chunk = Chunk::new();
    let const_ref = chunk.add_const(Value::Number(12));
    chunk.ref_const(const_ref, OpCode::Constant, OpCode::ConstantLong, 1);
    let result = disassemble_chunk(&chunk, &GC::new(), "test chunk");
    assert_eq!(
        result,
        String::from(
            "== test chunk ==\n\
            0000    1 OP_CONSTANT 0 '12'\n"
        )
    );
}

#[test]
fn debug_nil() {
    let mut chunk = Chunk::new();
    chunk.write_opcode(OpCode::Nil, 1);
    let result = disassemble_chunk(&chunk, &GC::new(), "test chunk");
    assert_eq!(
        result,
        String::from(
            "== test chunk ==\n\
            0000    1 OP_NIL\n"
        )
    );
}

#[test]
fn true_false() {
    let mut chunk = Chunk::new();
    chunk.write_opcode(OpCode::True, 1);
    chunk.write_opcode(OpCode::False, 2);
    let result = disassemble_chunk(&chunk, &GC::new(), "test chunk");
    assert_eq!(
        result,
        String::from(
            "== test chunk ==\n\
            0000    1 OP_TRUE\n\
            0001    2 OP_FALSE\n"
        )
    );
}

#[test]
fn debug_equal() {
    let mut chunk = Chunk::new();
    chunk.write_opcode(OpCode::Equal, 1);
    let result = disassemble_chunk(&chunk, &GC::new(), "test chunk");
    assert_eq!(
        result,
        String::from(
            "== test chunk ==\n\
            0000    1 OP_EQUAL\n"
        )
    );
}

#[test]
fn debug_greater() {
    let mut chunk = Chunk::new();
    chunk.write_opcode(OpCode::Greater, 1);
    let result = disassemble_chunk(&chunk, &GC::new(), "test chunk");
    assert_eq!(
        result,
        String::from(
            "== test chunk ==\n\
            0000    1 OP_GREATER\n"
        )
    );
}

#[test]
fn debug_add() {
    let mut chunk = Chunk::new();
    chunk.write_opcode(OpCode::Add, 1);
    let result = disassemble_chunk(&chunk, &GC::new(), "test chunk");
    assert_eq!(
        result,
        String::from(
            "== test chunk ==\n\
            0000    1 OP_ADD\n"
        )
    );
}

#[test]
fn debug_subtract() {
    let mut chunk = Chunk::new();
    chunk.write_opcode(OpCode::Subtract, 1);
    let result = disassemble_chunk(&chunk, &GC::new(), "test chunk");
    assert_eq!(
        result,
        String::from(
            "== test chunk ==\n\
            0000    1 OP_SUBTRACT\n"
        )
    );
}

#[test]
fn debug_multiply() {
    let mut chunk = Chunk::new();
    chunk.write_opcode(OpCode::Multiply, 1);
    let result = disassemble_chunk(&chunk, &GC::new(), "test chunk");
    assert_eq!(
        result,
        String::from(
            "== test chunk ==\n\
            0000    1 OP_MULTIPLY\n"
        )
    );
}

#[test]
fn debug_divide() {
    let mut chunk = Chunk::new();
    chunk.write_opcode(OpCode::Divide, 1);
    let result = disassemble_chunk(&chunk, &GC::new(), "test chunk");
    assert_eq!(
        result,
        String::from(
            "== test chunk ==\n\
            0000    1 OP_DIVIDE\n"
        )
    );
}

#[test]
fn debug_negate() {
    let mut chunk = Chunk::new();
    chunk.write_opcode(OpCode::Negate, 1);
    let result = disassemble_chunk(&chunk, &GC::new(), "test chunk");
    assert_eq!(
        result,
        String::from(
            "== test chunk ==\n\
            0000    1 OP_NEGATE\n"
        )
    );
}

#[test]
fn debug_not() {
    let mut chunk = Chunk::new();
    chunk.write_opcode(OpCode::Not, 1);
    let result = disassemble_chunk(&chunk, &GC::new(), "test chunk");
    assert_eq!(
        result,
        String::from(
            "== test chunk ==\n\
            0000    1 OP_NOT\n"
        )
    );
}

#[test]
fn line_numbers() {
    let mut chunk = Chunk::new();
    let const_ref = chunk.add_const(Value::Number(12));
    chunk.ref_const(const_ref, OpCode::Constant, OpCode::ConstantLong, 123);
    chunk.write_opcode(OpCode::Return, 123);
    let result = disassemble_chunk(&chunk, &GC::new(), "test chunk");
    assert_eq!(
        result,
        String::from(
            "== test chunk ==\n\
            0000  123 OP_CONSTANT 0 '12'\n\
            0002    | OP_RETURN\n"
        )
    );
}
