use rlox::chunk::{Chunk, OpCode};
use rlox::value::Value;

#[test]
fn returns_correct_line() {
    let mut chunk = Chunk::new();
    chunk.write_opcode(OpCode::Constant, 1);
    chunk.write_opcode(OpCode::Return, 2);
    assert_eq!(chunk.get_line(0), Some(&1));
    assert_eq!(chunk.get_line(1), Some(&2));
}

#[test]
fn returns_none_for_out_of_bounds_line() {
    let mut chunk = Chunk::new();
    chunk.write_opcode(OpCode::Constant, 1);
    chunk.write_opcode(OpCode::Return, 2);
    assert_eq!(chunk.get_line(2), None);
}

#[test]
fn returns_correct_code() {
    let mut chunk = Chunk::new();
    chunk.write_opcode(OpCode::Constant, 1);
    chunk.write_opcode(OpCode::Return, 2);
    assert_eq!(
        chunk.get_code(),
        &[OpCode::Constant.as_byte(), OpCode::Return.as_byte()]
    );
}

#[test]
fn adds_correct_constant() {
    let mut chunk = Chunk::new();
    chunk.add_const(Value::Number(12));
    assert_eq!(chunk.get_constant(0), Value::Number(12));
}

#[test]
fn writes_constant() {
    let mut chunk = Chunk::new();
    let const_ref = chunk.add_const(Value::Number(12));
    chunk.ref_const(const_ref, OpCode::Constant, OpCode::ConstantLong, 1);
    assert_eq!(chunk.get_code(), &[OpCode::Constant.as_byte(), 0]);
    assert_eq!(chunk.get_constant(0), Value::Number(12));
}

#[test]
fn writes_300_constants() {
    let mut chunk = Chunk::new();
    for i in 0..300 {
        chunk.add_const(Value::Number(i as i64));
    }
    for i in 0..300 {
        assert_eq!(chunk.get_constant(i), Value::Number(i as i64));
    }
}

#[test]
fn short_form_at_index_255_long_form_at_256() {
    let mut chunk = Chunk::new();
    chunk.ref_const(255, OpCode::Constant, OpCode::ConstantLong, 1);
    assert_eq!(chunk.get_code(), &[OpCode::Constant.as_byte(), 255]);
    let mut chunk = Chunk::new();
    chunk.ref_const(256, OpCode::Constant, OpCode::ConstantLong, 1);
    assert_eq!(chunk.get_code(), &[OpCode::ConstantLong.as_byte(), 1, 0]);
    let mut chunk = Chunk::new();
    chunk.ref_const(65535, OpCode::Constant, OpCode::ConstantLong, 1);
    assert_eq!(chunk.get_code(), &[OpCode::ConstantLong.as_byte(), 255, 255]);
}

#[test]
fn read_short_is_big_endian() {
    let mut chunk = Chunk::new();
    chunk.write_byte(1, 1);
    chunk.write_short(0x1234, 1);
    assert_eq!(chunk.read_short(1), Some(0x1234));
    assert_eq!(chunk.read_byte(1), Some(0x12));
    assert_eq!(chunk.read_byte(2), Some(0x34));
    assert_eq!(chunk.read_byte(3), None);
    assert_eq!(chunk.read_short(2), None);
}

#[test]
fn lines_cover_every_byte() {
    let mut chunk = Chunk::new();
    chunk.write_opcode(OpCode::Constant, 3);
    chunk.write_byte(0, 3);
    chunk.write_short(7, 4);
    chunk.write_opcode(OpCode::Return, 5);
    for i in 0..chunk.get_code().len() {
        assert!(chunk.get_line(i).is_some());
    }
    assert_eq!(chunk.get_line(chunk.get_code().len()), None);
}
