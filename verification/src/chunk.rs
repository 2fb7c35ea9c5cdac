//! The compiled-program container: a bytecode buffer, an ordered constant
//! pool, and a run-length-encoded line index with exactly one entry per
//! bytecode byte.
//!
//! Operations that name a constant come in two widths: a short form with a
//! 1-byte index, and a long form with a 2-byte big-endian index. Appending is
//! monotonic; instruction boundaries are implicit in sequential decoding.

use crate::rle::Rle;
use crate::value::Value;
use vstd::prelude::*;

verus! {

/// The opcodes, in their numeric order. The encoding reserves the value 7
/// and places `Subtract` between `Add` and `Multiply`, so every opcode from
/// `Subtract` on sits one above the position its column order alone would
/// suggest; nothing depends on the raw values beyond the codec below.
#[derive(Debug, Clone, Copy, PartialEq, Eq, Structural)]
pub enum OpCode {
    Return,
    Constant,
    ConstantLong,
    Nil,
    True,
    False,
    Pop,
    Get,
    GetLong,
    DefineGlobal,
    DefineGlobalLong,
    Equal,
    Greater,
    Less,
    Add,
    Subtract,
    Multiply,
    Divide,
    Not,
    Negate,
    Print,
}

pub type LineNumber = i16;

/// The byte encoding an opcode, following the declaration order of the
/// [`OpCode`] variants starting at 0 and skipping 7, which is reserved.
pub open spec fn spec_opcode_byte(op: OpCode) -> u8 {
    match op {
        OpCode::Return => 0,
        OpCode::Constant => 1,
        OpCode::ConstantLong => 2,
        OpCode::Nil => 3,
        OpCode::True => 4,
        OpCode::False => 5,
        OpCode::Pop => 6,
        OpCode::Get => 8,
        OpCode::GetLong => 9,
        OpCode::DefineGlobal => 10,
        OpCode::DefineGlobalLong => 11,
        OpCode::Equal => 12,
        OpCode::Greater => 13,
        OpCode::Less => 14,
        OpCode::Add => 15,
        OpCode::Subtract => 16,
        OpCode::Multiply => 17,
        OpCode::Divide => 18,
        OpCode::Not => 19,
        OpCode::Negate => 20,
        OpCode::Print => 21,
    }
}

/// Decoding a byte back to an opcode; bytes outside the table are `None`.
pub open spec fn spec_opcode_of_byte(b: u8) -> Option<OpCode> {
    if b == 0 {
        Some(OpCode::Return)
    } else if b == 1 {
        Some(OpCode::Constant)
    } else if b == 2 {
        Some(OpCode::ConstantLong)
    } else if b == 3 {
        Some(OpCode::Nil)
    } else if b == 4 {
        Some(OpCode::True)
    } else if b == 5 {
        Some(OpCode::False)
    } else if b == 6 {
        Some(OpCode::Pop)
    } else if b == 8 {
        Some(OpCode::Get)
    } else if b == 9 {
        Some(OpCode::GetLong)
    } else if b == 10 {
        Some(OpCode::DefineGlobal)
    } else if b == 11 {
        Some(OpCode::DefineGlobalLong)
    } else if b == 12 {
        Some(OpCode::Equal)
    } else if b == 13 {
        Some(OpCode::Greater)
    } else if b == 14 {
        Some(OpCode::Less)
    } else if b == 15 {
        Some(OpCode::Add)
    } else if b == 16 {
        Some(OpCode::Subtract)
    } else if b == 17 {
        Some(OpCode::Multiply)
    } else if b == 18 {
        Some(OpCode::Divide)
    } else if b == 19 {
        Some(OpCode::Not)
    } else if b == 20 {
        Some(OpCode::Negate)
    } else if b == 21 {
        Some(OpCode::Print)
    } else {
        None
    }
}

impl OpCode {
    /// The numeric encoding of this opcode.
    pub fn as_byte(self) -> (b: u8)
        ensures
            b == spec_opcode_byte(self),
    {
        match self {
            OpCode::Return => 0,
            OpCode::Constant => 1,
            OpCode::ConstantLong => 2,
            OpCode::Nil => 3,
            OpCode::True => 4,
            OpCode::False => 5,
            OpCode::Pop => 6,
            OpCode::Get => 8,
            OpCode::GetLong => 9,
            OpCode::DefineGlobal => 10,
            OpCode::DefineGlobalLong => 11,
            OpCode::Equal => 12,
            OpCode::Greater => 13,
            OpCode::Less => 14,
            OpCode::Add => 15,
            OpCode::Subtract => 16,
            OpCode::Multiply => 17,
            OpCode::Divide => 18,
            OpCode::Not => 19,
            OpCode::Negate => 20,
            OpCode::Print => 21,
        }
    }

    /// Decodes a byte to an opcode; bytes outside the table are `None`.
    pub fn from_byte(b: u8) -> (r: Option<OpCode>)
        ensures
            r == spec_opcode_of_byte(b),
    {
        match b {
            0 => Some(OpCode::Return),
            1 => Some(OpCode::Constant),
            2 => Some(OpCode::ConstantLong),
            3 => Some(OpCode::Nil),
            4 => Some(OpCode::True),
            5 => Some(OpCode::False),
            6 => Some(OpCode::Pop),
            8 => Some(OpCode::Get),
            9 => Some(OpCode::GetLong),
            10 => Some(OpCode::DefineGlobal),
            11 => Some(OpCode::DefineGlobalLong),
            12 => Some(OpCode::Equal),
            13 => Some(OpCode::Greater),
            14 => Some(OpCode::Less),
            15 => Some(OpCode::Add),
            16 => Some(OpCode::Subtract),
            17 => Some(OpCode::Multiply),
            18 => Some(OpCode::Divide),
            19 => Some(OpCode::Not),
            20 => Some(OpCode::Negate),
            21 => Some(OpCode::Print),
            _ => None,
        }
    }
}

/// Decoding inverts encoding, for every opcode.
pub proof fn lemma_opcode_byte_round_trip(op: OpCode)
    ensures
        spec_opcode_of_byte(spec_opcode_byte(op)) == Some(op),
{
}

/// A sequence of line numbers is sorted in non-decreasing order.
pub open spec fn lines_sorted(s: Seq<LineNumber>) -> bool {
    forall|i: int, j: int| 0 <= i <= j < s.len() ==> s[i] <= s[j]
}

pub struct Chunk {
    code: Vec<u8>,
    constants: Vec<Value>,
    lines: Rle<LineNumber>,
}

impl Chunk {
    /// There is exactly one line entry per bytecode byte.
    pub closed spec fn wf(&self) -> bool {
        &&& self.lines.wf()
        &&& self.lines@.len() == self.code@.len()
    }

    pub closed spec fn spec_code(&self) -> Seq<u8> {
        self.code@
    }

    pub closed spec fn spec_constants(&self) -> Seq<Value> {
        self.constants@
    }

    pub closed spec fn spec_lines(&self) -> Seq<LineNumber> {
        self.lines@
    }

    pub fn new() -> (r: Chunk)
        ensures
            r.wf(),
            r.spec_code() == Seq::<u8>::empty(),
            r.spec_constants() == Seq::<Value>::empty(),
            r.spec_lines() == Seq::<LineNumber>::empty(),
    {
        Chunk { code: Vec::new(), constants: Vec::new(), lines: Rle::new() }
    }

    /// Appends one byte and its line entry.
    pub fn write_byte(&mut self, op: u8, line: LineNumber)
        requires
            old(self).wf(),
        ensures
            final(self).wf(),
            final(self).spec_code() == old(self).spec_code().push(op),
            final(self).spec_lines() == old(self).spec_lines().push(line),
            final(self).spec_constants() == old(self).spec_constants(),
    {
        broadcast use vstd::laws_eq::group_laws_eq;

        self.code.push(op);
        proof {
            vstd::std_specs::vec::axiom_spec_len(&self.code);
        }
        self.lines.push(line);
    }

    /// Appends an opcode, encoded as its byte, with its line entry.
    pub fn write_opcode(&mut self, op: OpCode, line: LineNumber)
        requires
            old(self).wf(),
        ensures
            final(self).wf(),
            final(self).spec_code() == old(self).spec_code().push(spec_opcode_byte(op)),
            final(self).spec_lines() == old(self).spec_lines().push(line),
            final(self).spec_constants() == old(self).spec_constants(),
    {
        let b = op.as_byte();
        self.write_byte(b, line);
    }

    /// Appends a 16-bit value as two big-endian bytes, with one line entry
    /// for each byte.
    pub fn write_short(&mut self, value: u16, line: LineNumber)
        requires
            old(self).wf(),
        ensures
            final(self).wf(),
            final(self).spec_code() == old(self).spec_code().push((value / 256) as u8).push(
                (value % 256) as u8,
            ),
            final(self).spec_lines() == old(self).spec_lines().push(line).push(line),
            final(self).spec_constants() == old(self).spec_constants(),
    {
        broadcast use vstd::laws_eq::group_laws_eq;

        let a = (value / 256) as u8;
        let b = (value % 256) as u8;
        self.code.push(a);
        self.code.push(b);
        proof {
            vstd::std_specs::vec::axiom_spec_len(&self.code);
        }
        self.lines.push(line);
        self.lines.push(line);
    }

    /// Reads the byte at `index`, if it is in bounds.
    pub fn read_byte(&self, index: usize) -> (r: Option<u8>)
        ensures
            r == if index < self.spec_code().len() {
                Some(self.spec_code()[index as int])
            } else {
                None::<u8>
            },
    {
        if index < self.code.len() {
            Some(self.code[index])
        } else {
            None
        }
    }

    /// Reads a big-endian 16-bit value starting at `index`, if both bytes
    /// are in bounds.
    pub fn read_short(&self, index: usize) -> (r: Option<u16>)
        ensures
            r == if index + 1 < self.spec_code().len() {
                Some(
                    (self.spec_code()[index as int] * 256 + self.spec_code()[
                        index as int + 1
                    ]) as u16,
                )
            } else {
                None::<u16>
            },
    {
        if index < self.code.len() && index + 1 < self.code.len() {
            let a = self.code[index];
            let b = self.code[index + 1];
            Some((a as u16) * 256 + (b as u16))
        } else {
            None
        }
    }

    pub fn get_code(&self) -> (r: &[u8])
        ensures
            r@ == self.spec_code(),
    {
        self.code.as_slice()
    }

    /// The source line recorded for the byte at `offset`.
    pub fn get_line(&self, offset: usize) -> (r: Option<&LineNumber>)
        requires
            self.wf(),
        ensures
            match r {
                Some(l) => offset < self.spec_lines().len() && *l == self.spec_lines()[
                    offset as int
                ],
                None => offset >= self.spec_lines().len(),
            },
    {
        self.lines.get(offset)
    }

    /// Appends a value to the constant pool and returns its index, which is
    /// stable from then on.
    pub fn add_const(&mut self, value: Value) -> (r: usize)
        ensures
            final(self).wf() == old(self).wf(),
            final(self).spec_constants() == old(self).spec_constants().push(value),
            final(self).spec_code() == old(self).spec_code(),
            final(self).spec_lines() == old(self).spec_lines(),
            r == old(self).spec_constants().len(),
    {
        self.constants.push(value);
        return self.constants.len() - 1;
    }

    /// Emits a reference to constant `const_ref` in the narrowest form that
    /// fits: the 1-byte opcode-and-index form for indices up to 255, else
    /// the 2-byte big-endian form for indices up to 65535.
    pub fn ref_const(&mut self, const_ref: usize, byte_op: OpCode, long_op: OpCode,
        line: LineNumber)
        requires
            old(self).wf(),
            const_ref <= u16::MAX,
        ensures
            final(self).wf(),
            final(self).spec_constants() == old(self).spec_constants(),
            final(self).spec_code() == if const_ref <= u8::MAX {
                old(self).spec_code().push(spec_opcode_byte(byte_op)).push(const_ref as u8)
            } else {
                old(self).spec_code().push(spec_opcode_byte(long_op)).push(
                    (const_ref / 256) as u8,
                ).push((const_ref % 256) as u8)
            },
            final(self).spec_lines() == if const_ref <= u8::MAX {
                old(self).spec_lines().push(line).push(line)
            } else {
                old(self).spec_lines().push(line).push(line).push(line)
            },
    {
        if const_ref <= u8::MAX as usize {
            self.write_opcode(byte_op, line);
            self.write_byte(const_ref as u8, line);
        } else {
            self.write_opcode(long_op, line);
            self.write_short(const_ref as u16, line);
        }
    }

    /// The constant at `offset` in the pool.
    pub fn get_constant(&self, offset: usize) -> (r: Value)
        requires
            offset < self.spec_constants().len(),
        ensures
            r == self.spec_constants()[offset as int],
    {
        self.constants[offset]
    }

    /// The code buffer is a vector, so its length fits in a `usize`.
    pub proof fn lemma_code_len_bound(&self)
        ensures
            self.spec_code().len() <= usize::MAX,
    {
        vstd::std_specs::vec::axiom_spec_len(&self.code);
    }

    /// A well-formed chunk has exactly one line entry per bytecode byte.
    pub proof fn lemma_lines_match_code(&self)
        requires
            self.wf(),
        ensures
            self.spec_lines().len() == self.spec_code().len(),
    {
    }

    /// The number of constants in the pool.
    pub fn const_count(&self) -> (r: usize)
        ensures
            r == self.spec_constants().len(),
    {
        self.constants.len()
    }
}

/// Round trip on constants: appending a value to the pool and reading the
/// returned index back yields that very value, under the `Value` equality of
/// the pool (`add_const` followed by `get_constant`).
pub proof fn lemma_const_round_trip(constants: Seq<Value>, value: Value)
    ensures
        constants.push(value)[constants.len() as int] == value,
{
}

/// The append operations keep the line index sorted whenever each appended
/// line is at least the last one, so positional line lookup is monotonically
/// non-decreasing in the offset.
pub proof fn lemma_lines_monotone(lines: Seq<LineNumber>, line: LineNumber)
    requires
        lines_sorted(lines),
        lines.len() == 0 || lines.last() <= line,
    ensures
        lines_sorted(lines.push(line)),
        forall|i: int, j: int|
            0 <= i <= j < lines.push(line).len() ==> lines.push(line)[i] <= lines.push(line)[j],
{
    assert forall|i: int, j: int|
        0 <= i <= j < lines.push(line).len() implies lines.push(line)[i] <= lines.push(line)[j]
    by {
        if j < lines.len() {
        } else {
            if i < lines.len() {
                assert(lines[i] <= lines.last());
            }
        }
    }
}

} // verus!
