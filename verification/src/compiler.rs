//! The single-pass compiler: a scanner-driven Pratt parser that emits
//! bytecode directly into a chunk, with no intermediate tree.
//!
//! Parsing is precedence climbing over a table of per-token prefix and infix
//! rules. Errors are collected in a list; after the first error the parser
//! enters panic mode, drops further errors, and resynchronizes at statement
//! boundaries so several errors can be reported in one run. On success the
//! returned chunk always ends with a `Return` opcode, its line index covers
//! every bytecode byte, and every string or identifier constant is a valid
//! handle into the heap that was passed in.

use crate::chunk::{lemma_lines_monotone, lines_sorted, spec_opcode_byte, Chunk, OpCode};
use crate::gc::{ObjRef, GC};
use crate::scanner::{Scanner, Token, TokenKind};
use crate::value::{values_valid, Value};
use crate::vm::InterpreterError;
use vstd::prelude::*;

verus! {

/// One parse error: the offending token and a message.
#[derive(Debug, PartialEq, Eq)]
pub struct ParserError {
    pub message: String,
    pub token: Token,
}

/// Precedence levels, lowest to highest.
#[derive(Debug, Clone, Copy, PartialEq, Eq, Structural)]
pub enum Precedence {
    Lowest,
    Assignment,
    Or,
    And,
    Equality,
    Comparison,
    Term,
    Factor,
    Unary,
    Call,
    Primary,
}

/// The numeric rank of a precedence level, for `<=` comparisons.
pub open spec fn spec_prec_value(p: Precedence) -> u8 {
    match p {
        Precedence::Lowest => 0,
        Precedence::Assignment => 1,
        Precedence::Or => 2,
        Precedence::And => 3,
        Precedence::Equality => 4,
        Precedence::Comparison => 5,
        Precedence::Term => 6,
        Precedence::Factor => 7,
        Precedence::Unary => 8,
        Precedence::Call => 9,
        Precedence::Primary => 10,
    }
}

fn prec_value(p: Precedence) -> (r: u8)
    ensures
        r == spec_prec_value(p),
{
    match p {
        Precedence::Lowest => 0,
        Precedence::Assignment => 1,
        Precedence::Or => 2,
        Precedence::And => 3,
        Precedence::Equality => 4,
        Precedence::Comparison => 5,
        Precedence::Term => 6,
        Precedence::Factor => 7,
        Precedence::Unary => 8,
        Precedence::Call => 9,
        Precedence::Primary => 10,
    }
}

/// The next-higher precedence level (used for left associativity).
fn next_precedence(p: Precedence) -> (r: Precedence)
    ensures
        spec_prec_value(r) >= 1,
{
    match p {
        Precedence::Lowest => Precedence::Assignment,
        Precedence::Assignment => Precedence::Or,
        Precedence::Or => Precedence::And,
        Precedence::And => Precedence::Equality,
        Precedence::Equality => Precedence::Comparison,
        Precedence::Comparison => Precedence::Term,
        Precedence::Term => Precedence::Factor,
        Precedence::Factor => Precedence::Unary,
        Precedence::Unary => Precedence::Call,
        Precedence::Call => Precedence::Primary,
        Precedence::Primary => Precedence::Primary,
    }
}

/// What parses at the start of an expression for a given token.
#[derive(Debug, Clone, Copy, PartialEq, Eq, Structural)]
enum PrefixFn {
    NoPrefix,
    Grouping,
    UnaryOp,
    VariableRead,
    StringLit,
    NumberLit,
    Literal,
}

/// What parses after a left operand for a given token.
#[derive(Debug, Clone, Copy, PartialEq, Eq, Structural)]
enum InfixFn {
    NoInfix,
    BinaryOp,
}

struct ParseRule {
    prefix: PrefixFn,
    infix: InfixFn,
    precedence: Precedence,
}

/// The bytes a constant reference emits: the short opcode and a 1-byte
/// index for indices up to 255, the long opcode and a big-endian 2-byte
/// index up to 65535; an index beyond that emits nothing (the fatal
/// over-65536-constants error is recorded instead).
pub open spec fn spec_emit_const_ref(code: Seq<u8>, const_ref: int, byte_op: OpCode,
    long_op: OpCode) -> Seq<u8> {
    if const_ref <= u8::MAX {
        code.push(spec_opcode_byte(byte_op)).push(const_ref as u8)
    } else if const_ref <= u16::MAX {
        code.push(spec_opcode_byte(long_op)).push((const_ref / 256) as u8).push(
            (const_ref % 256) as u8,
        )
    } else {
        code
    }
}

/// The prefix rule of each token kind.
spec fn spec_token_prefix(kind: TokenKind) -> PrefixFn {
    match kind {
        TokenKind::LeftParen => PrefixFn::Grouping,
        TokenKind::Minus => PrefixFn::UnaryOp,
        TokenKind::Bang => PrefixFn::UnaryOp,
        TokenKind::Identifier => PrefixFn::VariableRead,
        TokenKind::String => PrefixFn::StringLit,
        TokenKind::Number => PrefixFn::NumberLit,
        TokenKind::True => PrefixFn::Literal,
        TokenKind::False => PrefixFn::Literal,
        TokenKind::Nil => PrefixFn::Literal,
        _ => PrefixFn::NoPrefix,
    }
}

/// The infix precedence of each token kind: `+ -` at Term, `* /` at Factor,
/// `== !=` at Equality, the four comparisons at Comparison, everything else
/// at the bottom.
spec fn spec_token_precedence(kind: TokenKind) -> Precedence {
    match kind {
        TokenKind::Minus => Precedence::Term,
        TokenKind::Plus => Precedence::Term,
        TokenKind::Slash => Precedence::Factor,
        TokenKind::Star => Precedence::Factor,
        TokenKind::BangEqual => Precedence::Equality,
        TokenKind::EqualEqual => Precedence::Equality,
        TokenKind::Greater => Precedence::Comparison,
        TokenKind::GreaterEqual => Precedence::Comparison,
        TokenKind::Less => Precedence::Comparison,
        TokenKind::LessEqual => Precedence::Comparison,
        _ => Precedence::Lowest,
    }
}

/// A byte sequence ends with the given suffix.
pub open spec fn spec_code_ends_with(code: Seq<u8>, suffix: Seq<u8>) -> bool {
    code.len() >= suffix.len() && code.subrange(
        code.len() - suffix.len(),
        code.len() as int,
    ) == suffix
}

/// The opcode sequence each binary operator compiles to: the direct opcodes
/// for `+ - * / == > <`, and the negated complements for `!= >= <=`.
pub open spec fn spec_binary_suffix(kind: TokenKind) -> Seq<u8> {
    if kind == TokenKind::BangEqual {
        seq![spec_opcode_byte(OpCode::Equal), spec_opcode_byte(OpCode::Not)]
    } else if kind == TokenKind::EqualEqual {
        seq![spec_opcode_byte(OpCode::Equal)]
    } else if kind == TokenKind::Greater {
        seq![spec_opcode_byte(OpCode::Greater)]
    } else if kind == TokenKind::GreaterEqual {
        seq![spec_opcode_byte(OpCode::Less), spec_opcode_byte(OpCode::Not)]
    } else if kind == TokenKind::Less {
        seq![spec_opcode_byte(OpCode::Less)]
    } else if kind == TokenKind::LessEqual {
        seq![spec_opcode_byte(OpCode::Greater), spec_opcode_byte(OpCode::Not)]
    } else if kind == TokenKind::Plus {
        seq![spec_opcode_byte(OpCode::Add)]
    } else if kind == TokenKind::Minus {
        seq![spec_opcode_byte(OpCode::Subtract)]
    } else if kind == TokenKind::Star {
        seq![spec_opcode_byte(OpCode::Multiply)]
    } else {
        seq![spec_opcode_byte(OpCode::Divide)]
    }
}

/// The tokens that have an infix rule: the binary operators.
spec fn spec_has_infix(kind: TokenKind) -> bool {
    ||| kind == TokenKind::Minus
    ||| kind == TokenKind::Plus
    ||| kind == TokenKind::Slash
    ||| kind == TokenKind::Star
    ||| kind == TokenKind::BangEqual
    ||| kind == TokenKind::EqualEqual
    ||| kind == TokenKind::Greater
    ||| kind == TokenKind::GreaterEqual
    ||| kind == TokenKind::Less
    ||| kind == TokenKind::LessEqual
}

/// The parse rule for a token kind: its prefix role, its infix role, and
/// its infix precedence.
fn get_rule(token: TokenKind) -> (r: ParseRule)
    ensures
        r.prefix == spec_token_prefix(token),
        r.precedence == spec_token_precedence(token),
        r.infix == InfixFn::BinaryOp <==> spec_has_infix(token),
        r.prefix != PrefixFn::NoPrefix ==> token != TokenKind::Eof && token != TokenKind::Error,
        spec_prec_value(r.precedence) >= 1 ==> token != TokenKind::Eof && token != TokenKind::Error,
        r.prefix == PrefixFn::UnaryOp ==> token == TokenKind::Minus || token == TokenKind::Bang,
        r.prefix == PrefixFn::Literal ==> token == TokenKind::True || token == TokenKind::False
            || token == TokenKind::Nil,
        r.prefix == PrefixFn::NumberLit ==> token == TokenKind::Number,
        r.prefix == PrefixFn::StringLit ==> token == TokenKind::String,
{
    match token {
        TokenKind::LeftParen => ParseRule {
            prefix: PrefixFn::Grouping,
            infix: InfixFn::NoInfix,
            precedence: Precedence::Lowest,
        },
        TokenKind::Minus => ParseRule {
            prefix: PrefixFn::UnaryOp,
            infix: InfixFn::BinaryOp,
            precedence: Precedence::Term,
        },
        TokenKind::Plus => ParseRule {
            prefix: PrefixFn::NoPrefix,
            infix: InfixFn::BinaryOp,
            precedence: Precedence::Term,
        },
        TokenKind::Slash => ParseRule {
            prefix: PrefixFn::NoPrefix,
            infix: InfixFn::BinaryOp,
            precedence: Precedence::Factor,
        },
        TokenKind::Star => ParseRule {
            prefix: PrefixFn::NoPrefix,
            infix: InfixFn::BinaryOp,
            precedence: Precedence::Factor,
        },
        TokenKind::Bang => ParseRule {
            prefix: PrefixFn::UnaryOp,
            infix: InfixFn::NoInfix,
            precedence: Precedence::Lowest,
        },
        TokenKind::BangEqual => ParseRule {
            prefix: PrefixFn::NoPrefix,
            infix: InfixFn::BinaryOp,
            precedence: Precedence::Equality,
        },
        TokenKind::EqualEqual => ParseRule {
            prefix: PrefixFn::NoPrefix,
            infix: InfixFn::BinaryOp,
            precedence: Precedence::Equality,
        },
        TokenKind::Greater => ParseRule {
            prefix: PrefixFn::NoPrefix,
            infix: InfixFn::BinaryOp,
            precedence: Precedence::Comparison,
        },
        TokenKind::GreaterEqual => ParseRule {
            prefix: PrefixFn::NoPrefix,
            infix: InfixFn::BinaryOp,
            precedence: Precedence::Comparison,
        },
        TokenKind::Less => ParseRule {
            prefix: PrefixFn::NoPrefix,
            infix: InfixFn::BinaryOp,
            precedence: Precedence::Comparison,
        },
        TokenKind::LessEqual => ParseRule {
            prefix: PrefixFn::NoPrefix,
            infix: InfixFn::BinaryOp,
            precedence: Precedence::Comparison,
        },
        TokenKind::Identifier => ParseRule {
            prefix: PrefixFn::VariableRead,
            infix: InfixFn::NoInfix,
            precedence: Precedence::Lowest,
        },
        TokenKind::String => ParseRule {
            prefix: PrefixFn::StringLit,
            infix: InfixFn::NoInfix,
            precedence: Precedence::Lowest,
        },
        TokenKind::Number => ParseRule {
            prefix: PrefixFn::NumberLit,
            infix: InfixFn::NoInfix,
            precedence: Precedence::Lowest,
        },
        TokenKind::False => ParseRule {
            prefix: PrefixFn::Literal,
            infix: InfixFn::NoInfix,
            precedence: Precedence::Lowest,
        },
        TokenKind::Nil => ParseRule {
            prefix: PrefixFn::Literal,
            infix: InfixFn::NoInfix,
            precedence: Precedence::Lowest,
        },
        TokenKind::True => ParseRule {
            prefix: PrefixFn::Literal,
            infix: InfixFn::NoInfix,
            precedence: Precedence::Lowest,
        },
        _ => ParseRule {
            prefix: PrefixFn::NoPrefix,
            infix: InfixFn::NoInfix,
            precedence: Precedence::Lowest,
        },
    }
}

struct Compiler {
    gc: GC,
    scanner: Scanner,
    current: Token,
    previous: Token,
    errors: Vec<ParserError>,
    panic_mode: bool,
    current_chunk: Chunk,
}

/// What every parsing step preserves: well-formedness, the parse measure
/// and the error list grow only in the right directions, end of input is
/// never left, and the heap keeps every object it had.
spec fn comp_step(pre: Compiler, post: Compiler) -> bool {
    &&& post.wf()
    &&& post.spec_measure() <= pre.spec_measure()
    &&& post.current_chunk.spec_code().len() >= pre.current_chunk.spec_code().len()
    &&& post.errors@.len() >= pre.errors@.len()
    &&& (pre.current.kind == TokenKind::Eof ==> post.current.kind == TokenKind::Eof)
    &&& post.gc.spec_len() >= pre.gc.spec_len()
    &&& forall|q: ObjRef|
        pre.gc.spec_valid(q) ==> post.gc.spec_valid(q) && post.gc.spec_content(q)
            == pre.gc.spec_content(q)
}

impl Compiler {
    /// The scanner, chunk and heap are well formed, chunk constants are
    /// valid handles, an end-of-input lookahead means the scanner is really
    /// at the end, and the emitted line index is sorted: every emit tags
    /// bytes with the most recently consumed token's line, and token lines
    /// never decrease.
    spec fn wf(&self) -> bool {
        &&& self.scanner.wf()
        &&& self.current_chunk.wf()
        &&& self.gc.wf()
        &&& values_valid(self.current_chunk.spec_constants(), self.gc.spec_len())
        &&& (self.current.kind == TokenKind::Eof ==> self.scanner.spec_current()
            == self.scanner.spec_input().len())
        &&& lines_sorted(self.current_chunk.spec_lines())
        &&& (self.current_chunk.spec_lines().len() > 0 ==> self.current_chunk.spec_lines().last()
            <= self.previous.line)
        &&& self.previous.line <= self.current.line
        &&& self.current.line == self.scanner.spec_line()
    }

    /// How much input is left to parse: the unscanned characters plus one
    /// for a pending non-end lookahead token.
    spec fn spec_measure(&self) -> int {
        self.scanner.spec_input().len() - self.scanner.spec_current() + (
        if self.current.kind == TokenKind::Eof {
            0int
        } else {
            1int
        })
    }

    fn new(mut scanner: Scanner, gc: GC) -> (c: Compiler)
        requires
            scanner.wf(),
            scanner.spec_current() == 0,
            scanner.spec_line() == 1,
            gc.wf(),
        ensures
            c.wf(),
            c.errors@.len() == 0,
            !c.panic_mode,
            c.gc.spec_len() >= gc.spec_len(),
            forall|q: ObjRef|
                gc.spec_valid(q) ==> c.gc.spec_valid(q) && c.gc.spec_content(q) == gc.spec_content(
                    q,
                ),
            crate::scanner::spec_skip_ws(scanner.spec_input(), 0, 1).0
                >= scanner.spec_input().len() ==> c.current.kind == TokenKind::Eof,
            c.current_chunk.spec_code().len() == 0,
            c.spec_measure() <= scanner.spec_input().len(),
    {
        let first = scanner.scan();
        let second = first.clone();
        Compiler {
            gc,
            current: first,
            previous: second,
            scanner,
            panic_mode: false,
            errors: Vec::new(),
            current_chunk: Chunk::new(),
        }
    }

    /// Records an error at a token, unless panic mode already suppresses
    /// further errors; entering panic mode starts here.
    fn error_at(&mut self, token: Token, message: String)
        requires
            old(self).wf(),
        ensures
            comp_step(*old(self), *final(self)),
            final(self).scanner == old(self).scanner,
            final(self).current == old(self).current,
            final(self).previous == old(self).previous,
            final(self).current_chunk == old(self).current_chunk,
            final(self).gc == old(self).gc,
            final(self).panic_mode,
            !old(self).panic_mode ==> final(self).errors@.len() == old(self).errors@.len() + 1,
    {
        if self.panic_mode {
            return ;
        }
        self.panic_mode = true;
        self.errors.push(ParserError { token, message });
    }

    fn error_at_current(&mut self, message: String)
        requires
            old(self).wf(),
        ensures
            comp_step(*old(self), *final(self)),
            final(self).scanner == old(self).scanner,
            final(self).current == old(self).current,
            final(self).previous == old(self).previous,
            final(self).current_chunk == old(self).current_chunk,
            final(self).gc == old(self).gc,
            final(self).panic_mode,
            !old(self).panic_mode ==> final(self).errors@.len() == old(self).errors@.len() + 1,
    {
        let token = self.current.clone();
        self.error_at(token, message);
    }

    fn error(&mut self, message: String)
        requires
            old(self).wf(),
        ensures
            comp_step(*old(self), *final(self)),
            final(self).scanner == old(self).scanner,
            final(self).current == old(self).current,
            final(self).previous == old(self).previous,
            final(self).current_chunk == old(self).current_chunk,
            final(self).gc == old(self).gc,
            final(self).panic_mode,
    {
        let token = self.previous.clone();
        self.error_at(token, message);
    }

    /// Advances the lookahead by one token, reporting and skipping any
    /// error tokens on the way.
    fn advance(&mut self)
        requires
            old(self).wf(),
        ensures
            comp_step(*old(self), *final(self)),
            final(self).previous == old(self).current,
            final(self).current.kind != TokenKind::Error,
            final(self).current_chunk == old(self).current_chunk,
            final(self).gc == old(self).gc,
            old(self).current.kind != TokenKind::Eof ==> final(self).spec_measure() < old(self).spec_measure(),
            old(self).panic_mode ==> final(self).panic_mode,
            old(self).current.kind == TokenKind::Eof ==> final(self).panic_mode == old(self).panic_mode
                && final(self).errors == old(self).errors,
    {
        self.previous = self.current.clone();
        let ghost m0 = self.spec_measure();
        let token = self.scanner.scan();
        self.current = token;
        proof {
            assert(self.spec_measure() <= m0);
        }
        let ghost m1 = self.spec_measure();
        loop
            invariant
                self.wf(),
                self.previous == old(self).current,
                self.current_chunk == old(self).current_chunk,
                self.gc == old(self).gc,
                self.errors@.len() >= old(self).errors@.len(),
                old(self).panic_mode ==> self.panic_mode,
                self.spec_measure() <= m1 <= m0,
                m0 == old(self).spec_measure(),
                old(self).current.kind != TokenKind::Eof ==> m1 < m0,
                old(self).current.kind == TokenKind::Eof ==> self.current.kind == TokenKind::Eof,
                old(self).current.kind == TokenKind::Eof ==> self.panic_mode == old(self).panic_mode
                    && self.errors == old(self).errors,
            decreases self.spec_measure(),
        {
            let ghost mh = self.spec_measure();
            let is_error = match self.current.kind {
                TokenKind::Error => true,
                _ => false,
            };
            if !is_error {
                return ;
            }
            let message = self.current.lexeme.clone();
            self.error_at_current(message);
            let token = self.scanner.scan();
            self.current = token;
            proof {
                assert(self.spec_measure() < mh);
            }
        }
    }

    fn check(&self, kind: TokenKind) -> (r: bool)
        ensures
            r == (self.current.kind == kind),
    {
        self.current.kind == kind
    }

    /// Consumes the current token when it has the expected kind, else
    /// records the error message.
    fn consume(&mut self, kind: TokenKind, message: String)
        requires
            old(self).wf(),
        ensures
            comp_step(*old(self), *final(self)),
            final(self).current_chunk == old(self).current_chunk,
            final(self).gc == old(self).gc,
            old(self).panic_mode ==> final(self).panic_mode,
            old(self).current.kind == kind && kind != TokenKind::Eof ==> final(self).spec_measure()
                < old(self).spec_measure(),
    {
        if self.check(kind) {
            self.advance()
        } else {
            self.error_at_current(message)
        }
    }

    /// Consumes the current token when it has the given kind.
    fn match_token(&mut self, kind: TokenKind) -> (r: bool)
        requires
            old(self).wf(),
        ensures
            comp_step(*old(self), *final(self)),
            final(self).current_chunk == old(self).current_chunk,
            final(self).gc == old(self).gc,
            r == (old(self).current.kind == kind),
            !r ==> *final(self) == *old(self),
            r && kind != TokenKind::Eof ==> final(self).spec_measure() < old(self).spec_measure(),
            old(self).panic_mode ==> final(self).panic_mode,
    {
        if self.check(kind) {
            self.advance();
            true
        } else {
            false
        }
    }

    /// Skips tokens until a statement boundary, leaving panic mode.
    fn synchronize(&mut self)
        requires
            old(self).wf(),
        ensures
            comp_step(*old(self), *final(self)),
            final(self).current_chunk == old(self).current_chunk,
            final(self).gc == old(self).gc,
    {
        self.panic_mode = false;
        loop
            invariant
                self.wf(),
                self.spec_measure() <= old(self).spec_measure(),
                self.errors@.len() >= old(self).errors@.len(),
                self.current_chunk == old(self).current_chunk,
                self.gc == old(self).gc,
                old(self).current.kind == TokenKind::Eof ==> self.current.kind == TokenKind::Eof,
            decreases self.spec_measure(),
        {
            if self.check(TokenKind::Eof) {
                return ;
            }
            if self.previous.kind == TokenKind::Semicolon {
                return ;
            }
            match self.current.kind {
                TokenKind::Class | TokenKind::Fun | TokenKind::Var | TokenKind::For
                    | TokenKind::If | TokenKind::While | TokenKind::Print | TokenKind::Return => {
                    return ;
                },
                _ => (),
            }
            self.advance();
        }
    }

    // Emitting

    fn emit_byte(&mut self, op: u8, line: i16)
        requires
            old(self).wf(),
            line == old(self).previous.line,
        ensures
            comp_step(*old(self), *final(self)),
            final(self).scanner == old(self).scanner,
            final(self).current == old(self).current,
            final(self).previous == old(self).previous,
            final(self).errors == old(self).errors,
            final(self).panic_mode == old(self).panic_mode,
            final(self).gc == old(self).gc,
            final(self).current_chunk.spec_code() == old(self).current_chunk.spec_code().push(op),
            final(self).current_chunk.spec_constants() == old(self).current_chunk.spec_constants(),
    {
        proof {
            lemma_lines_monotone(self.current_chunk.spec_lines(), line);
        }
        self.current_chunk.write_byte(op, line);
    }

    fn emit_opcode(&mut self, opcode: OpCode)
        requires
            old(self).wf(),
        ensures
            comp_step(*old(self), *final(self)),
            final(self).scanner == old(self).scanner,
            final(self).current == old(self).current,
            final(self).previous == old(self).previous,
            final(self).errors == old(self).errors,
            final(self).panic_mode == old(self).panic_mode,
            final(self).gc == old(self).gc,
            final(self).current_chunk.spec_code() == old(self).current_chunk.spec_code().push(
                spec_opcode_byte(opcode),
            ),
            final(self).current_chunk.spec_constants() == old(self).current_chunk.spec_constants(),
    {
        let line = self.previous.line;
        let b = opcode.as_byte();
        self.emit_byte(b, line);
    }

    fn emit_return(&mut self)
        requires
            old(self).wf(),
        ensures
            comp_step(*old(self), *final(self)),
            final(self).errors == old(self).errors,
            final(self).current_chunk.spec_code() == old(self).current_chunk.spec_code().push(
                spec_opcode_byte(OpCode::Return),
            ),
    {
        self.emit_opcode(OpCode::Return)
    }

    /// Emits a constant reference in the narrowest width that fits, or
    /// records the fatal over-65536-constants error.
    fn emit_const_ref(&mut self, const_ref: usize, byte_op: OpCode, long_op: OpCode)
        requires
            old(self).wf(),
        ensures
            comp_step(*old(self), *final(self)),
            final(self).scanner == old(self).scanner,
            final(self).current == old(self).current,
            final(self).previous == old(self).previous,
            final(self).gc == old(self).gc,
            final(self).current_chunk.spec_constants() == old(self).current_chunk.spec_constants(),
            final(self).current_chunk.spec_code().len() <= old(self).current_chunk.spec_code().len()
                + 3,
            final(self).current_chunk.spec_code() == spec_emit_const_ref(
                old(self).current_chunk.spec_code(),
                const_ref as int,
                byte_op,
                long_op,
            ),
    {
        if const_ref <= u16::MAX as usize {
            let line = self.previous.line;
            proof {
                let lines0 = self.current_chunk.spec_lines();
                lemma_lines_monotone(lines0, line);
                lemma_lines_monotone(lines0.push(line), line);
                lemma_lines_monotone(lines0.push(line).push(line), line);
            }
            self.current_chunk.ref_const(const_ref, byte_op, long_op, line);
        } else {
            self.error("Too many constants in one chunk.".to_owned());
        }
    }

    /// Adds a value to the constant pool and emits a reference to it.
    fn emit_constant(&mut self, value: Value)
        requires
            old(self).wf(),
            (value matches Value::Object(r) ==> old(self).gc.spec_valid(r)),
        ensures
            comp_step(*old(self), *final(self)),
            final(self).scanner == old(self).scanner,
            final(self).current == old(self).current,
            final(self).previous == old(self).previous,
            final(self).gc == old(self).gc,
            final(self).current_chunk.spec_constants() == old(
                self,
            ).current_chunk.spec_constants().push(value),
            final(self).current_chunk.spec_code().len() <= old(self).current_chunk.spec_code().len()
                + 3,
            final(self).current_chunk.spec_code() == spec_emit_const_ref(
                old(self).current_chunk.spec_code(),
                old(self).current_chunk.spec_constants().len() as int,
                OpCode::Constant,
                OpCode::ConstantLong,
            ),
    {
        let const_ref = self.current_chunk.add_const(value);
        self.emit_const_ref(const_ref, OpCode::Constant, OpCode::ConstantLong);
    }

    /// Interns the previous token's lexeme and adds it to the constant pool
    /// as a string constant, returning the pool index. When the heap cannot
    /// grow any further this records an error instead.
    fn identifier_constant(&mut self) -> (r: usize)
        requires
            old(self).wf(),
        ensures
            comp_step(*old(self), *final(self)),
            final(self).scanner == old(self).scanner,
            final(self).current == old(self).current,
            final(self).previous == old(self).previous,
            old(self).panic_mode ==> final(self).panic_mode,
            final(self).current_chunk.spec_code() == old(self).current_chunk.spec_code(),
            old(self).gc.spec_len() < usize::MAX / 8 ==> ({
                let cs = final(self).current_chunk.spec_constants();
                &&& cs == old(self).current_chunk.spec_constants().push(cs.last())
                &&& r == cs.len() - 1
                &&& (cs.last() matches Value::Object(h) && final(self).gc.spec_valid(h)
                    && final(self).gc.spec_content(h) == old(self).previous.lexeme@)
            }),
    {
        if self.gc.obj_count() >= usize::MAX / 8 {
            self.error("Too many constants in one chunk.".to_owned());
            return 0;
        }
        let value = self.previous.lexeme.clone();
        let obj = self.gc.alloc_string(value);
        return self.current_chunk.add_const(Value::Object(obj));
    }

    /// Parses a variable name and returns its name-constant index.
    fn parse_variable(&mut self, message: String) -> (r: usize)
        requires
            old(self).wf(),
        ensures
            comp_step(*old(self), *final(self)),
            old(self).panic_mode ==> final(self).panic_mode,
            final(self).current_chunk.spec_code() == old(self).current_chunk.spec_code(),
            old(self).current.kind == TokenKind::Identifier ==> final(self).spec_measure() < old(self).spec_measure(),
    {
        self.consume(TokenKind::Identifier, message);
        return self.identifier_constant();
    }

    /// Emits the definition of a global variable by its name constant.
    fn define_variable(&mut self, name_ref: usize)
        requires
            old(self).wf(),
        ensures
            comp_step(*old(self), *final(self)),
            final(self).current_chunk.spec_code().len() <= old(self).current_chunk.spec_code().len()
                + 3,
    {
        self.emit_const_ref(name_ref, OpCode::DefineGlobal, OpCode::DefineGlobalLong);
    }
}

/// The index where the digit prefix of a lexeme ends.
pub open spec fn spec_digit_prefix_end(s: Seq<char>, i: int) -> int
    decreases s.len() - i,
{
    if i < 0 || i >= s.len() || !crate::scanner::spec_is_digit(s[i]) {
        i
    } else {
        spec_digit_prefix_end(s, i + 1)
    }
}

/// The mathematical value of the first `n` characters of a lexeme read as
/// decimal digits.
pub open spec fn spec_digits_value(s: Seq<char>, n: int) -> int
    decreases n,
{
    if n <= 0 {
        0
    } else {
        spec_digits_value(s, n - 1) * 10 + (s[n - 1] as u32 - 48)
    }
}

/// The numeric value of a number literal: the value of its digit prefix
/// (the fractional part, when present, is dropped), saturating at the
/// largest representable number.
pub open spec fn spec_number_literal(s: Seq<char>) -> i64 {
    let v = spec_digits_value(s, spec_digit_prefix_end(s, 0));
    if v > i64::MAX {
        i64::MAX
    } else {
        v as i64
    }
}

proof fn lemma_digits_value_bounds(s: Seq<char>, n: int)
    requires
        forall|j: int| 0 <= j < n ==> crate::scanner::spec_is_digit(#[trigger] s[j]),
        0 <= n <= s.len(),
    ensures
        spec_digits_value(s, n) >= 0,
    decreases n,
{
    if n > 0 {
        lemma_digits_value_bounds(s, n - 1);
        assert(spec_digits_value(s, n - 1) * 10 >= 0) by (nonlinear_arith)
            requires
                spec_digits_value(s, n - 1) >= 0,
        ;
    }
}

proof fn lemma_digit_prefix_stable(s: Seq<char>, i: int)
    requires
        0 <= i < s.len(),
        crate::scanner::spec_is_digit(s[i]),
    ensures
        spec_digit_prefix_end(s, i) == spec_digit_prefix_end(s, i + 1),
{
}

/// Parses the previous number literal and emits it as a constant whose
/// value is [`spec_number_literal`] of the lexeme.
fn number(c: &mut Compiler)
    requires
        old(c).wf(),
    ensures
        comp_step(*old(c), *final(c)),
        final(c).scanner == old(c).scanner,
        final(c).current == old(c).current,
        final(c).previous == old(c).previous,
        final(c).current_chunk.spec_constants() == old(c).current_chunk.spec_constants().push(
            Value::Number(spec_number_literal(old(c).previous.lexeme@)),
        ),
        final(c).current_chunk.spec_code().len() <= old(c).current_chunk.spec_code().len() + 3,
        final(c).current_chunk.spec_code() == spec_emit_const_ref(
            old(c).current_chunk.spec_code(),
            old(c).current_chunk.spec_constants().len() as int,
            OpCode::Constant,
            OpCode::ConstantLong,
        ),
{
    let text: &String = &c.previous.lexeme;
    let slice: &str = text.as_str();
    let ghost s = slice@;
    let n = slice.unicode_len();
    let mut value: i64 = 0;
    let mut i: usize = 0;
    loop
        invariant
            n == s.len(),
            slice@ == s,
            i <= n,
            forall|j: int| 0 <= j < i ==> crate::scanner::spec_is_digit(#[trigger] s[j]),
            spec_digit_prefix_end(s, 0) == spec_digit_prefix_end(s, i as int),
            0 <= value <= i64::MAX,
            value == (if spec_digits_value(s, i as int) > i64::MAX {
                i64::MAX as int
            } else {
                spec_digits_value(s, i as int)
            }),
        ensures
            spec_digit_prefix_end(s, 0) == i as int,
            value == (if spec_digits_value(s, i as int) > i64::MAX {
                i64::MAX as int
            } else {
                spec_digits_value(s, i as int)
            }),
        decreases n - i,
    {
        if i >= n {
            break ;
        }
        let ch = slice.get_char(i);
        if ch >= '0' && ch <= '9' {
            let digit = (ch as u32) - 48;
            proof {
                lemma_digit_prefix_stable(s, i as int);
                lemma_digits_value_bounds(s, i as int);
                let vi = spec_digits_value(s, i as int);
                let d = digit as int;
                assert(spec_digits_value(s, i as int + 1) == vi * 10 + d);
                assert((value <= (i64::MAX - d) / 10) == (value * 10 + d <= i64::MAX))
                    by (nonlinear_arith)
                    requires
                        0 <= value,
                        0 <= d <= 9,
                ;
                if vi > i64::MAX {
                    assert(vi * 10 + d > i64::MAX) by (nonlinear_arith)
                        requires
                            vi > i64::MAX,
                            d >= 0,
                    ;
                    assert((i64::MAX as int) * 10 + d > i64::MAX) by (nonlinear_arith)
                        requires
                            d >= 0,
                    ;
                } else {
                    assert(vi * 10 + d <= i64::MAX || vi * 10 + d > i64::MAX);
                }
            }
            if value <= (i64::MAX - digit as i64) / 10 {
                value = value * 10 + digit as i64;
            } else {
                value = i64::MAX;
            }
            i = i + 1;
        } else {
            break ;
        }
    }
    proof {
        assert(spec_number_literal(s) == value);
    }
    let v = value;
    c.emit_constant(Value::Number(v));
}

/// Emits the literal for `true`, `false` or `nil`.
fn literal(c: &mut Compiler)
    requires
        old(c).wf(),
        old(c).previous.kind == TokenKind::True || old(c).previous.kind == TokenKind::False
            || old(c).previous.kind == TokenKind::Nil,
    ensures
        comp_step(*old(c), *final(c)),
        final(c).scanner == old(c).scanner,
        final(c).current == old(c).current,
        final(c).current_chunk.spec_code() == old(c).current_chunk.spec_code().push(
            spec_opcode_byte(
                if old(c).previous.kind == TokenKind::True {
                    OpCode::True
                } else if old(c).previous.kind == TokenKind::False {
                    OpCode::False
                } else {
                    OpCode::Nil
                },
            ),
        ),
{
    match c.previous.kind {
        TokenKind::True => c.emit_opcode(OpCode::True),
        TokenKind::False => c.emit_opcode(OpCode::False),
        _ => c.emit_opcode(OpCode::Nil),
    }
}

/// Interns the previous string literal without its surrounding quotes and
/// emits it as a constant.
fn string(c: &mut Compiler)
    requires
        old(c).wf(),
    ensures
        comp_step(*old(c), *final(c)),
        final(c).scanner == old(c).scanner,
        final(c).current == old(c).current,
        final(c).current_chunk.spec_code().len() <= old(c).current_chunk.spec_code().len() + 3,
        old(c).gc.spec_len() < usize::MAX / 8 && old(c).previous.lexeme@.len() >= 2 ==> ({
            let cs = final(c).current_chunk.spec_constants();
            &&& cs == old(c).current_chunk.spec_constants().push(cs.last())
            &&& (cs.last() matches Value::Object(h) && final(c).gc.spec_valid(h)
                && final(c).gc.spec_content(h) == old(c).previous.lexeme@.subrange(
                1,
                old(c).previous.lexeme@.len() - 1,
            ))
        }),
{
    if c.gc.obj_count() >= usize::MAX / 8 {
        c.error("Too many constants in one chunk.".to_owned());
        return ;
    }
    let slice: &str = c.previous.lexeme.as_str();
    let n = slice.unicode_len();
    let value: String = if n >= 2 {
        slice.substring_char(1, n - 1).to_owned()
    } else {
        String::new()
    };
    let obj = c.gc.alloc_string(value);
    c.emit_constant(Value::Object(obj));
}

/// Emits a read of the named variable.
fn named_variable(c: &mut Compiler)
    requires
        old(c).wf(),
    ensures
        comp_step(*old(c), *final(c)),
        final(c).scanner == old(c).scanner,
        final(c).current == old(c).current,
        final(c).current_chunk.spec_code().len() <= old(c).current_chunk.spec_code().len() + 3,
{
    let name_ref = c.identifier_constant();
    c.emit_const_ref(name_ref, OpCode::Get, OpCode::GetLong);
}

fn variable(c: &mut Compiler)
    requires
        old(c).wf(),
    ensures
        comp_step(*old(c), *final(c)),
        final(c).scanner == old(c).scanner,
        final(c).current == old(c).current,
        final(c).current_chunk.spec_code().len() <= old(c).current_chunk.spec_code().len() + 3,
{
    named_variable(c);
}

/// Parses a parenthesized expression.
fn grouping(c: &mut Compiler, fuel: Ghost<int>)
    requires
        old(c).wf(),
        old(c).spec_measure() <= fuel@,
    ensures
        comp_step(*old(c), *final(c)),
        final(c).current_chunk.spec_code().len() + 3 * final(c).spec_measure() <= old(c).current_chunk.spec_code().len() + 3 * old(c).spec_measure(),
    decreases fuel@, 9int,
{
    expression(c, fuel);
    c.consume(TokenKind::RightParen, "Expect ')' after expression.".to_owned());
}

/// Parses the operand of a unary operator and emits the operator.
fn unary(c: &mut Compiler, fuel: Ghost<int>)
    requires
        old(c).wf(),
        old(c).spec_measure() <= fuel@,
        old(c).previous.kind == TokenKind::Minus || old(c).previous.kind == TokenKind::Bang,
    ensures
        comp_step(*old(c), *final(c)),
        final(c).current_chunk.spec_code().len() + 3 * final(c).spec_measure() <= old(c).current_chunk.spec_code().len() + 3 * old(c).spec_measure() + 1,
        final(c).current_chunk.spec_code().len() > old(c).current_chunk.spec_code().len(),
        final(c).current_chunk.spec_code().last() == spec_opcode_byte(
            if old(c).previous.kind == TokenKind::Minus {
                OpCode::Negate
            } else {
                OpCode::Not
            },
        ),
    decreases fuel@, 9int,
{
    let op_kind = c.previous.kind;
    parse_precedence(c, Precedence::Unary, fuel);
    match op_kind {
        TokenKind::Minus => c.emit_opcode(OpCode::Negate),
        _ => c.emit_opcode(OpCode::Not),
    }
}

/// Parses the right operand of a binary operator (left associatively) and
/// emits the operator's opcode sequence.
fn binary(c: &mut Compiler, fuel: Ghost<int>)
    requires
        old(c).wf(),
        old(c).spec_measure() <= fuel@,
        spec_has_infix(old(c).previous.kind),
    ensures
        comp_step(*old(c), *final(c)),
        final(c).current_chunk.spec_code().len() + 3 * final(c).spec_measure() <= old(c).current_chunk.spec_code().len() + 3 * old(c).spec_measure() + 2,
        final(c).current_chunk.spec_code().len() >= old(c).current_chunk.spec_code().len()
            + spec_binary_suffix(old(c).previous.kind).len(),
        spec_code_ends_with(
            final(c).current_chunk.spec_code(),
            spec_binary_suffix(old(c).previous.kind),
        ),
    decreases fuel@, 9int,
{
    let op_kind = c.previous.kind;
    let rule = get_rule(op_kind);
    let precedence = next_precedence(rule.precedence);
    parse_precedence(c, precedence, fuel);
    let ghost mid = c.current_chunk.spec_code();
    match op_kind {
        TokenKind::BangEqual => {
            c.emit_opcode(OpCode::Equal);
            c.emit_opcode(OpCode::Not);
        },
        TokenKind::EqualEqual => c.emit_opcode(OpCode::Equal),
        TokenKind::Greater => c.emit_opcode(OpCode::Greater),
        TokenKind::GreaterEqual => {
            c.emit_opcode(OpCode::Less);
            c.emit_opcode(OpCode::Not);
        },
        TokenKind::Less => c.emit_opcode(OpCode::Less),
        TokenKind::LessEqual => {
            c.emit_opcode(OpCode::Greater);
            c.emit_opcode(OpCode::Not);
        },
        TokenKind::Plus => c.emit_opcode(OpCode::Add),
        TokenKind::Minus => c.emit_opcode(OpCode::Subtract),
        TokenKind::Star => c.emit_opcode(OpCode::Multiply),
        _ => c.emit_opcode(OpCode::Divide),
    }
    proof {
        let suffix = spec_binary_suffix(op_kind);
        let code = c.current_chunk.spec_code();
        assert(code.subrange(code.len() - suffix.len(), code.len() as int) =~= suffix);
    }
}

/// The precedence-climbing driver: parses one prefix expression, then folds
/// in infix operators of at least the given precedence.
fn parse_precedence(c: &mut Compiler, precedence: Precedence, fuel: Ghost<int>)
    requires
        old(c).wf(),
        old(c).spec_measure() <= fuel@,
        spec_prec_value(precedence) >= 1,
    ensures
        comp_step(*old(c), *final(c)),
        final(c).current_chunk.spec_code().len() + 3 * final(c).spec_measure() <= old(c).current_chunk.spec_code().len() + 3 * old(c).spec_measure(),
        old(c).current.kind != TokenKind::Eof ==> final(c).spec_measure() < old(c).spec_measure(),
        !old(c).panic_mode && old(c).current.kind == TokenKind::Eof ==> final(c).errors@.len()
            > old(c).errors@.len(),
    decreases fuel@, 2int,
{
    let ghost pre = *c;
    c.advance();
    let rule = get_rule(c.previous.kind);
    proof {
        if rule.prefix != PrefixFn::NoPrefix {
            assert(pre.current.kind != TokenKind::Eof);
            assert(c.spec_measure() < pre.spec_measure());
        }
    }
    match rule.prefix {
        PrefixFn::NoPrefix => {
            c.error_at_current("Expected expression.".to_owned());
            return ;
        },
        PrefixFn::Grouping => grouping(c, Ghost(fuel@ - 1)),
        PrefixFn::UnaryOp => unary(c, Ghost(fuel@ - 1)),
        PrefixFn::VariableRead => variable(c),
        PrefixFn::StringLit => string(c),
        PrefixFn::NumberLit => number(c),
        PrefixFn::Literal => literal(c),
    }
    let min_prec = prec_value(precedence);
    loop
        invariant
            c.wf(),
            c.spec_measure() < pre.spec_measure() || (pre.current.kind == TokenKind::Eof
                && c.spec_measure() <= pre.spec_measure()),
            c.errors@.len() >= pre.errors@.len(),
            pre.current.kind == TokenKind::Eof ==> c.current.kind == TokenKind::Eof,
            c.gc.spec_len() >= pre.gc.spec_len(),
            forall|q: ObjRef|
                pre.gc.spec_valid(q) ==> c.gc.spec_valid(q) && c.gc.spec_content(q)
                    == pre.gc.spec_content(q),
            min_prec == spec_prec_value(precedence),
            spec_prec_value(precedence) >= 1,
            pre.spec_measure() <= fuel@,
            c.current_chunk.spec_code().len() + 3 * c.spec_measure() <= pre.current_chunk.spec_code().len()
                + 3 * pre.spec_measure(),
            c.current_chunk.spec_code().len() >= pre.current_chunk.spec_code().len(),
        decreases c.spec_measure(),
    {
        let current_rule = get_rule(c.current.kind);
        if min_prec <= prec_value(current_rule.precedence) {
            proof {
                assert(c.current.kind != TokenKind::Eof);
                assert(c.spec_measure() < pre.spec_measure());
            }
            c.advance();
            match get_rule(c.previous.kind).infix {
                InfixFn::BinaryOp => binary(c, Ghost(fuel@ - 1)),
                InfixFn::NoInfix => (),
            }
        } else {
            break ;
        }
    }
}

/// Parses one expression.
fn expression(c: &mut Compiler, fuel: Ghost<int>)
    requires
        old(c).wf(),
        old(c).spec_measure() <= fuel@,
    ensures
        comp_step(*old(c), *final(c)),
        final(c).current_chunk.spec_code().len() + 3 * final(c).spec_measure() <= old(c).current_chunk.spec_code().len() + 3 * old(c).spec_measure(),
        old(c).current.kind != TokenKind::Eof ==> final(c).spec_measure() < old(c).spec_measure(),
        !old(c).panic_mode && old(c).current.kind == TokenKind::Eof ==> final(c).errors@.len()
            > old(c).errors@.len(),
    decreases fuel@, 3int,
{
    parse_precedence(c, Precedence::Assignment, fuel);
}

impl Compiler {
    /// `var NAME (= expression)? ;`
    fn var_declaration(&mut self)
        requires
            old(self).wf(),
        ensures
            comp_step(*old(self), *final(self)),
            final(self).current_chunk.spec_code().len() + 3 * final(self).spec_measure() <= old(self).current_chunk.spec_code().len() + 3 * old(self).spec_measure() + 4,
    {
        let name_ref = self.parse_variable("Expected variable name.".to_owned());
        if self.match_token(TokenKind::Equal) {
            let ghost fuel = self.spec_measure();
            expression(self, Ghost(fuel));
        } else {
            self.emit_opcode(OpCode::Nil);
        }
        self.consume(TokenKind::Semicolon, "Expected ';' after variable declaration.".to_owned());
        self.define_variable(name_ref);
    }

    /// `print expression ;`
    fn print_statement(&mut self)
        requires
            old(self).wf(),
        ensures
            comp_step(*old(self), *final(self)),
            final(self).current_chunk.spec_code().len() + 3 * final(self).spec_measure() <= old(self).current_chunk.spec_code().len() + 3 * old(self).spec_measure() + 1,
            final(self).current_chunk.spec_code().len() > old(self).current_chunk.spec_code().len(),
            final(self).current_chunk.spec_code().last() == spec_opcode_byte(OpCode::Print),
    {
        let ghost fuel = self.spec_measure();
        expression(self, Ghost(fuel));
        self.consume(TokenKind::Semicolon, "Expected ';' after value.".to_owned());
        self.emit_opcode(OpCode::Print);
    }

    /// An expression evaluated for effect and popped.
    fn expression_statement(&mut self)
        requires
            old(self).wf(),
        ensures
            comp_step(*old(self), *final(self)),
            final(self).current_chunk.spec_code().len() + 3 * final(self).spec_measure() <= old(self).current_chunk.spec_code().len() + 3 * old(self).spec_measure() + 1,
            final(self).current_chunk.spec_code().len() > old(self).current_chunk.spec_code().len(),
            final(self).current_chunk.spec_code().last() == spec_opcode_byte(OpCode::Pop),
            old(self).current.kind != TokenKind::Eof ==> final(self).spec_measure() < old(self).spec_measure(),
            !old(self).panic_mode && old(self).current.kind == TokenKind::Eof ==> final(self).errors@.len() > old(self).errors@.len(),
    {
        let ghost fuel = self.spec_measure();
        expression(self, Ghost(fuel));
        self.consume(TokenKind::Semicolon, "Expected ';' after value.".to_owned());
        self.emit_opcode(OpCode::Pop);
    }

    fn statement(&mut self)
        requires
            old(self).wf(),
        ensures
            comp_step(*old(self), *final(self)),
            final(self).current_chunk.spec_code().len() + 3 * final(self).spec_measure() <= old(self).current_chunk.spec_code().len() + 3 * old(self).spec_measure() + 1,
            old(self).current.kind != TokenKind::Eof ==> final(self).spec_measure() < old(self).spec_measure(),
            !old(self).panic_mode && old(self).current.kind == TokenKind::Eof ==> final(self).errors@.len() > old(self).errors@.len(),
    {
        if self.match_token(TokenKind::Print) {
            self.print_statement();
        } else {
            self.expression_statement();
        }
    }

    /// One top-level declaration: a `var` declaration or a statement, with
    /// panic-mode resynchronization afterwards.
    fn declaration(&mut self)
        requires
            old(self).wf(),
        ensures
            comp_step(*old(self), *final(self)),
            final(self).current_chunk.spec_code().len() + 3 * final(self).spec_measure() <= old(self).current_chunk.spec_code().len() + 3 * old(self).spec_measure() + 1,
            old(self).current.kind != TokenKind::Eof ==> final(self).spec_measure() < old(self).spec_measure(),
            !old(self).panic_mode && old(self).current.kind == TokenKind::Eof ==> final(self).errors@.len() > old(self).errors@.len(),
    {
        if self.match_token(TokenKind::Var) {
            self.var_declaration();
        } else {
            self.statement();
        }
        if self.panic_mode {
            self.synchronize();
        }
    }

    /// Finishes compilation: appends the final `Return` and hands the chunk
    /// and the heap back.
    fn end(self) -> (r: (Chunk, GC, Vec<ParserError>))
        requires
            self.wf(),
        ensures
            r.0.wf(),
            r.1.wf(),
            values_valid(r.0.spec_constants(), r.1.spec_len()),
            r.0.spec_code().len() > 0,
            r.0.spec_code().len() == self.current_chunk.spec_code().len() + 1,
            r.0.spec_code().last() == spec_opcode_byte(OpCode::Return),
            lines_sorted(r.0.spec_lines()),
            r.1.spec_len() >= self.gc.spec_len(),
            forall|q: ObjRef|
                self.gc.spec_valid(q) ==> r.1.spec_valid(q) && r.1.spec_content(q)
                    == self.gc.spec_content(q),
            r.2@.len() == self.errors@.len(),
    {
        let mut this = self;
        this.emit_return();
        (this.current_chunk, this.gc, this.errors)
    }
}

/// Compiles source text against a heap. On success the chunk is well
/// formed, ends in `Return`, its line index is sorted, its code is at most
/// linear in the source length, and all of its object constants are valid,
/// interned handles into the heap; otherwise the collected parse errors
/// come back, at least one. Source with nothing to parse is an error: at
/// least one declaration or expression is expected.
pub fn compile(source: &String, gc: &mut GC) -> (r: Result<Chunk, InterpreterError>)
    requires
        old(gc).wf(),
    ensures
        final(gc).wf(),
        final(gc).spec_len() >= old(gc).spec_len(),
        forall|q: ObjRef|
            old(gc).spec_valid(q) ==> final(gc).spec_valid(q) && final(gc).spec_content(q) == old(gc).spec_content(q),
        match r {
            Ok(chunk) => {
                &&& chunk.wf()
                &&& values_valid(chunk.spec_constants(), final(gc).spec_len())
                &&& chunk.spec_code().len() > 0
                &&& chunk.spec_code().len() <= 4 * source@.len() + 2
                &&& chunk.spec_code().last() == spec_opcode_byte(OpCode::Return)
                &&& lines_sorted(chunk.spec_lines())
            },
            Err(e) => e matches InterpreterError::CompileError(list) && list@.len() > 0,
        },
        crate::scanner::spec_skip_ws(source@, 0, 1).0 >= source@.len() ==> r is Err,
        source@.len() == 0 ==> r is Err,
{
    let scanner = Scanner::new(source);
    let mut heap = GC::new();
    core::mem::swap(gc, &mut heap);
    let ghost heap0 = heap;
    let mut compiler = Compiler::new(scanner, heap);
    compiler.declaration();
    let mut done = compiler.match_token(TokenKind::Eof);
    while !done
        invariant
            compiler.wf(),
            compiler.gc.spec_len() >= heap0.spec_len(),
            forall|q: ObjRef|
                heap0.spec_valid(q) ==> compiler.gc.spec_valid(q) && compiler.gc.spec_content(q)
                    == heap0.spec_content(q),
            crate::scanner::spec_skip_ws(source@, 0, 1).0 >= source@.len()
                ==> compiler.errors@.len() > 0,
            !done ==> compiler.current.kind != TokenKind::Eof,
            compiler.current_chunk.spec_code().len() + 4 * compiler.spec_measure() <= 4
                * source@.len() + 1,
        decreases compiler.spec_measure(),
    {
        compiler.declaration();
        done = compiler.match_token(TokenKind::Eof);
    }
    let had_errors = compiler.errors.len() > 0;
    let parts = compiler.end();
    let (chunk, heap_back, errors) = parts;
    let mut heap_back = heap_back;
    core::mem::swap(gc, &mut heap_back);
    if had_errors {
        Err(InterpreterError::CompileError(errors))
    } else {
        Ok(chunk)
    }
}

} // verus!
