//! A human-readable disassembler for chunks, used by the VM's tracing mode.
//! The exact output format is a debugging aid, not part of the library's
//! observable behaviour.

use crate::chunk::{Chunk, OpCode};
use crate::gc::GC;
use crate::value::{u64_to_string, value_display, values_valid, Value};
use vstd::prelude::*;

verus! {

/// The hexadecimal digit character for `d` (meaningful for `d < 16`).
fn hex_digit(d: u8) -> (r: &'static str)
    requires
        d < 16,
{
    if d == 0 {
        "0"
    } else if d == 1 {
        "1"
    } else if d == 2 {
        "2"
    } else if d == 3 {
        "3"
    } else if d == 4 {
        "4"
    } else if d == 5 {
        "5"
    } else if d == 6 {
        "6"
    } else if d == 7 {
        "7"
    } else if d == 8 {
        "8"
    } else if d == 9 {
        "9"
    } else if d == 10 {
        "a"
    } else if d == 11 {
        "b"
    } else if d == 12 {
        "c"
    } else if d == 13 {
        "d"
    } else if d == 14 {
        "e"
    } else {
        "f"
    }
}

/// A byte as two lowercase hexadecimal digits.
fn byte_to_hex(b: u8) -> String {
    let mut s = String::new();
    s.append(hex_digit(b / 16));
    s.append(hex_digit(b % 16));
    s
}

/// A number in decimal, left-padded with zeros to at least four digits.
fn pad_zeros4(n: u64) -> String {
    let digits = u64_to_string(n);
    let len = digits.as_str().unicode_len();
    let mut s = String::new();
    if len < 4 {
        let mut i: usize = 0;
        let missing = 4 - len;
        while i < missing
            invariant
                missing <= 4,
                i <= missing,
            decreases missing - i,
        {
            s.append("0");
            i = i + 1;
        }
    }
    s.append(digits.as_str());
    s
}

/// A string right-aligned in a field of at least four characters.
fn pad_spaces4(text: &String) -> String {
    let len = text.as_str().unicode_len();
    let mut s = String::new();
    if len < 4 {
        let mut i: usize = 0;
        let missing = 4 - len;
        while i < missing
            invariant
                missing <= 4,
                i <= missing,
            decreases missing - i,
        {
            s.append(" ");
            i = i + 1;
        }
    }
    s.append(text.as_str());
    s
}

/// The line column for the instruction at `offset`: the 4-wide line number,
/// or `   |` when the line equals the previous byte's.
fn line_info(chunk: &Chunk, offset: usize) -> (r: String)
    requires
        chunk.wf(),
        offset < chunk.spec_lines().len(),
{
    let cur_line: i16 = match chunk.get_line(offset) {
        Some(l) => *l,
        None => 1,
    };
    if offset > 0 {
        let prev_line: i16 = match chunk.get_line(offset - 1) {
            Some(l) => *l,
            None => 1,
        };
        if cur_line == prev_line {
            let mut s = String::new();
            s.append("   | ");
            return s;
        }
    }
    let line_str = if cur_line >= 0 {
        u64_to_string(cur_line as u64)
    } else {
        u64_to_string(0)
    };
    let mut s = pad_spaces4(&line_str);
    s.append(" ");
    s
}

fn simple_instruction(name: &str, offset: usize) -> (r: (usize, String))
    requires
        offset < usize::MAX,
    ensures
        r.0 == offset + 1,
{
    (offset + 1, name.to_owned())
}

/// Renders a short-form constant-bearing instruction: mnemonic, the raw
/// index, and the quoted display form of the referenced constant.
fn constant_instruction(name: &str, chunk: &Chunk, gc: &GC, offset: usize) -> (r: Option<
    (usize, String),
>)
    requires
        chunk.wf(),
        gc.wf(),
        values_valid(chunk.spec_constants(), gc.spec_len()),
        offset < chunk.spec_code().len(),
    ensures
        r matches Some(p) ==> p.0 == offset + 2 && p.0 <= chunk.spec_code().len(),
{
    proof {
        chunk.lemma_code_len_bound();
    }
    let index = match chunk.read_byte(offset + 1) {
        Some(b) => b as usize,
        None => {
            return None;
        },
    };
    if index >= chunk.const_count() {
        return None;
    }
    let value = chunk.get_constant(index);
    let mut s = String::new();
    s.append(name);
    s.append(" ");
    s.append(u64_to_string(index as u64).as_str());
    s.append(" '");
    s.append(value_display(value, gc).as_str());
    s.append("'");
    Some((offset + 2, s))
}

/// Renders a long-form constant-bearing instruction with its 2-byte index.
fn constant_long_instruction(name: &str, chunk: &Chunk, gc: &GC, offset: usize) -> (r: Option<
    (usize, String),
>)
    requires
        chunk.wf(),
        gc.wf(),
        values_valid(chunk.spec_constants(), gc.spec_len()),
        offset < chunk.spec_code().len(),
    ensures
        r matches Some(p) ==> p.0 == offset + 3 && p.0 <= chunk.spec_code().len(),
{
    proof {
        chunk.lemma_code_len_bound();
    }
    let index = match chunk.read_short(offset + 1) {
        Some(v) => v as usize,
        None => {
            return None;
        },
    };
    if index >= chunk.const_count() {
        return None;
    }
    let value = chunk.get_constant(index);
    let mut s = String::new();
    s.append(name);
    s.append(" ");
    s.append(u64_to_string(index as u64).as_str());
    s.append(" '");
    s.append(value_display(value, gc).as_str());
    s.append("'");
    Some((offset + 3, s))
}

/// Disassembles the instruction at `offset`: returns the offset of the next
/// instruction and a line of text, or `None` at (or past) the end of the
/// chunk.
pub fn disassemble_instruction(chunk: &Chunk, gc: &GC, offset: usize) -> (r: Option<
    (usize, String),
>)
    requires
        chunk.wf(),
        gc.wf(),
        values_valid(chunk.spec_constants(), gc.spec_len()),
    ensures
        r matches Some(p) ==> p.0 > offset && p.0 <= chunk.spec_code().len(),
        r is Some ==> offset < chunk.spec_code().len(),
        offset >= chunk.spec_code().len() ==> r is None,
{
    proof {
        chunk.lemma_code_len_bound();
        chunk.lemma_lines_match_code();
    }
    let byte = match chunk.read_byte(offset) {
        Some(b) => b,
        None => {
            return None;
        },
    };
    let described: Option<(usize, String)> = match OpCode::from_byte(byte) {
        Some(OpCode::Return) => Some(simple_instruction("OP_RETURN", offset)),
        Some(OpCode::Constant) => constant_instruction("OP_CONSTANT", chunk, gc, offset),
        Some(OpCode::ConstantLong) => constant_long_instruction(
            "OP_CONSTANT_LONG",
            chunk,
            gc,
            offset,
        ),
        Some(OpCode::Nil) => Some(simple_instruction("OP_NIL", offset)),
        Some(OpCode::True) => Some(simple_instruction("OP_TRUE", offset)),
        Some(OpCode::False) => Some(simple_instruction("OP_FALSE", offset)),
        Some(OpCode::Pop) => Some(simple_instruction("OP_POP", offset)),
        Some(OpCode::Get) => constant_instruction("OP_GET_GLOBAL", chunk, gc, offset),
        Some(OpCode::GetLong) => constant_long_instruction(
            "OP_GET_GLOBAL_LONG",
            chunk,
            gc,
            offset,
        ),
        Some(OpCode::DefineGlobal) => constant_instruction("OP_DEFINE_GLOBAL", chunk, gc, offset),
        Some(OpCode::DefineGlobalLong) => constant_long_instruction(
            "OP_DEFINE_GLOBAL_LONG",
            chunk,
            gc,
            offset,
        ),
        Some(OpCode::Equal) => Some(simple_instruction("OP_EQUAL", offset)),
        Some(OpCode::Greater) => Some(simple_instruction("OP_GREATER", offset)),
        Some(OpCode::Less) => Some(simple_instruction("OP_LESS", offset)),
        Some(OpCode::Add) => Some(simple_instruction("OP_ADD", offset)),
        Some(OpCode::Subtract) => Some(simple_instruction("OP_SUBTRACT", offset)),
        Some(OpCode::Multiply) => Some(simple_instruction("OP_MULTIPLY", offset)),
        Some(OpCode::Divide) => Some(simple_instruction("OP_DIVIDE", offset)),
        Some(OpCode::Negate) => Some(simple_instruction("OP_NEGATE", offset)),
        Some(OpCode::Not) => Some(simple_instruction("OP_NOT", offset)),
        Some(OpCode::Print) => Some(simple_instruction("OP_PRINT", offset)),
        None => {
            let mut s = String::new();
            s.append("[");
            s.append(u64_to_string(offset as u64).as_str());
            s.append("] Unknown opcode ");
            s.append(byte_to_hex(byte).as_str());
            return Some((offset + 1, s));
        },
    };
    match described {
        None => None,
        Some((next_offset, description)) => {
            let mut s = String::new();
            s.append(pad_zeros4(offset as u64).as_str());
            s.append(" ");
            s.append(line_info(chunk, offset).as_str());
            s.append(description.as_str());
            Some((next_offset, s))
        },
    }
}

/// Disassembles a whole chunk, one instruction per line, under a header
/// naming the chunk.
pub fn disassemble_chunk(chunk: &Chunk, gc: &GC, name: &str) -> (r: String)
    requires
        chunk.wf(),
        gc.wf(),
        values_valid(chunk.spec_constants(), gc.spec_len()),
{
    let mut result = String::new();
    result.append("== ");
    result.append(name);
    result.append(" ==\n");
    let mut offset: usize = 0;
    let end = chunk.get_code().len();
    loop
        invariant
            chunk.wf(),
            gc.wf(),
            values_valid(chunk.spec_constants(), gc.spec_len()),
            end == chunk.spec_code().len(),
        decreases end - offset,
    {
        if offset >= end {
            break ;
        }
        match disassemble_instruction(chunk, gc, offset) {
            None => {
                break ;
            },
            Some((next_offset, description)) => {
                result.append(description.as_str());
                result.append("\n");
                if next_offset <= offset {
                    break ;
                }
                offset = next_offset;
            },
        }
    }
    result
}

} // verus!
