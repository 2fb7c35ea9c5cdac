//! The virtual machine: a dispatch loop over opcodes with a fixed-capacity
//! value stack, a string-keyed table of global bindings, and a shared object
//! heap for interned strings.
//!
//! The meaning of execution is given by [`spec_run_machine`], a machine over
//! a ghost state of stack, globals, heap contents, collected output and
//! instruction pointer; [`VM::run`] returns exactly what that machine
//! prescribes and leaves the VM, heap and output in the prescribed state.

use crate::chunk::{spec_opcode_of_byte, Chunk, OpCode};
use crate::compiler::ParserError;
use crate::debug::disassemble_instruction;
use crate::gc::{ObjRef, GC};
use crate::table::Table;
use crate::value::{
    are_equal, is_falsey, map_values_valid, spec_are_equal, spec_int_string, spec_is_falsey,
    spec_value_display, value_display, values_valid, Value,
};
use vstd::prelude::*;

verus! {

/// Tracing configuration. Trace lines go to the same collected output as
/// program output; their format is a debugging aid, not part of the
/// library's observable behaviour.
#[derive(Debug, Clone, Copy)]
pub struct VMConfig {
    pub trace_instructions: bool,
    pub trace_stack: bool,
}

#[derive(Debug, PartialEq, Eq)]
pub enum InterpreterError {
    CompileError(Vec<ParserError>),
    RuntimeError(String),
}

/// The fixed capacity of the value stack.
pub const STACK_MAX: usize = 256;

/// The ghost state of the executing machine.
#[verifier::ext_equal]
pub ghost struct MachineState {
    pub ip: int,
    pub stack: Seq<Value>,
    pub globals: Map<Seq<char>, Value>,
    pub heap: Seq<Seq<char>>,
    pub output: Seq<char>,
}

/// The outcome of running the machine to completion: the returned value, or
/// a runtime error message, together with the final machine state.
pub ghost enum MachineResult {
    Done { value: Value, state: MachineState },
    Failed { message: Seq<char>, state: MachineState },
}

/// Some live object holds exactly this content.
pub open spec fn spec_heap_has(heap: Seq<Seq<char>>, s: Seq<char>) -> bool {
    exists|i: int| 0 <= i < heap.len() && heap[i] == s
}

/// The handle interning `s` yields: the existing object when some object
/// already holds this content, else the next fresh index.
pub open spec fn spec_intern_ref(heap: Seq<Seq<char>>, s: Seq<char>) -> int {
    if spec_heap_has(heap, s) {
        choose|i: int| 0 <= i < heap.len() && heap[i] == s
    } else {
        heap.len() as int
    }
}

/// The heap after interning `s`: unchanged when the content is already
/// present, else extended by one object.
pub open spec fn spec_intern_heap(heap: Seq<Seq<char>>, s: Seq<char>) -> Seq<Seq<char>> {
    if spec_heap_has(heap, s) {
        heap
    } else {
        heap.push(s)
    }
}

/// Truncated 64-bit division that wraps on overflow: division by zero gives
/// zero, and the one overflowing case (`i64::MIN / -1`) wraps to `i64::MIN`.
pub open spec fn spec_div_wrap(a: i64, b: i64) -> i64 {
    if b == 0 {
        0
    } else {
        match a.checked_div(b) {
            Some(q) => q,
            None => i64::MIN,
        }
    }
}

/// The machine, one instruction per unfolding: reads the opcode at `ip`,
/// transforms the state as the opcode prescribes, and recurses; `Return`
/// stops with the popped value (nil on an empty stack), and every error
/// condition stops with its message and the state at failure.
pub open spec fn spec_run_machine(code: Seq<u8>, consts: Seq<Value>, st: MachineState)
    -> MachineResult
    decreases code.len() - st.ip, 0int,
{
    if st.ip < 0 || st.ip >= code.len() {
        MachineResult::Failed { message: "Read byte out of bounds"@, state: st }
    } else {
        let b = code[st.ip];
        let st1 = MachineState { ip: st.ip + 1, ..st };
        match spec_opcode_of_byte(b) {
            None => MachineResult::Failed {
                message: "Unknown opcode: "@ + spec_int_string(b as int),
                state: st1,
            },
            Some(op) => match op {
                OpCode::Return => {
                    if st1.stack.len() == 0 {
                        MachineResult::Done { value: Value::Nil, state: st1 }
                    } else {
                        MachineResult::Done {
                            value: st1.stack.last(),
                            state: MachineState { stack: st1.stack.drop_last(), ..st1 },
                        }
                    }
                },
                OpCode::Constant => spec_step_constant_push(code, consts, st1, 1),
                OpCode::ConstantLong => spec_step_constant_push(code, consts, st1, 2),
                OpCode::Nil => spec_step_push_literal(code, consts, st1, Value::Nil),
                OpCode::True => spec_step_push_literal(code, consts, st1, Value::Boolean(true)),
                OpCode::False => spec_step_push_literal(code, consts, st1, Value::Boolean(false)),
                OpCode::Pop => {
                    if st1.stack.len() == 0 {
                        MachineResult::Failed { message: "Stack underflow"@, state: st1 }
                    } else {
                        spec_run_machine(
                            code,
                            consts,
                            MachineState { stack: st1.stack.drop_last(), ..st1 },
                        )
                    }
                },
                OpCode::Get => spec_step_get(code, consts, st1, 1),
                OpCode::GetLong => spec_step_get(code, consts, st1, 2),
                OpCode::DefineGlobal => spec_step_define(code, consts, st1, 1),
                OpCode::DefineGlobalLong => spec_step_define(code, consts, st1, 2),
                OpCode::Equal => {
                    if st1.stack.len() < 2 {
                        MachineResult::Failed {
                            message: "Stack underflow"@,
                            state: spec_drain(st1),
                        }
                    } else {
                        let a = st1.stack[st1.stack.len() - 2];
                        let b2 = st1.stack[st1.stack.len() - 1];
                        spec_run_machine(
                            code,
                            consts,
                            spec_replace_top2(st1, Value::Boolean(spec_are_equal(a, b2))),
                        )
                    }
                },
                OpCode::Less => spec_step_compare(code, consts, st1, false),
                OpCode::Greater => spec_step_compare(code, consts, st1, true),
                OpCode::Add => spec_step_add(code, consts, st1),
                OpCode::Subtract => spec_step_arith(code, consts, st1, OpCode::Subtract),
                OpCode::Multiply => spec_step_arith(code, consts, st1, OpCode::Multiply),
                OpCode::Divide => spec_step_arith(code, consts, st1, OpCode::Divide),
                OpCode::Negate => {
                    if st1.stack.len() == 0 {
                        MachineResult::Failed { message: "Stack underflow"@, state: st1 }
                    } else {
                        let a = st1.stack.last();
                        match a {
                            Value::Number(n) => spec_run_machine(
                                code,
                                consts,
                                MachineState {
                                    stack: st1.stack.drop_last().push(
                                        Value::Number((0i64).wrapping_sub(n)),
                                    ),
                                    ..st1
                                },
                            ),
                            _ => MachineResult::Failed {
                                message: "Invalid type for negation: "@ + spec_value_display(
                                    a,
                                    st1.heap,
                                ),
                                state: MachineState { stack: st1.stack.drop_last(), ..st1 },
                            },
                        }
                    }
                },
                OpCode::Not => {
                    if st1.stack.len() == 0 {
                        MachineResult::Failed { message: "Stack underflow"@, state: st1 }
                    } else {
                        let a = st1.stack.last();
                        spec_run_machine(
                            code,
                            consts,
                            MachineState {
                                stack: st1.stack.drop_last().push(
                                    Value::Boolean(spec_is_falsey(a)),
                                ),
                                ..st1
                            },
                        )
                    }
                },
                OpCode::Print => {
                    if st1.stack.len() == 0 {
                        MachineResult::Failed { message: "Stack underflow"@, state: st1 }
                    } else {
                        let a = st1.stack.last();
                        spec_run_machine(
                            code,
                            consts,
                            MachineState {
                                stack: st1.stack.drop_last(),
                                output: st1.output + spec_value_display(a, st1.heap) + "\n"@,
                                ..st1
                            },
                        )
                    }
                },
            },
        }
    }
}

/// The state after a failed two-operand pop: the first pop took the only
/// element.
pub open spec fn spec_drain(st: MachineState) -> MachineState {
    if st.stack.len() == 0 {
        st
    } else {
        MachineState { stack: st.stack.drop_last(), ..st }
    }
}

/// The state after popping two values and pushing one.
pub open spec fn spec_replace_top2(st: MachineState, v: Value) -> MachineState {
    MachineState { stack: st.stack.drop_last().drop_last().push(v), ..st }
}

/// Reads the operand of a constant-bearing instruction: a 1-byte index or a
/// 2-byte big-endian index, depending on the opcode's width.
pub open spec fn spec_read_index(code: Seq<u8>, st: MachineState, width: int) -> Option<
    (int, MachineState)
> {
    if width == 1 {
        if st.ip + 1 <= code.len() && st.ip < code.len() {
            Some((code[st.ip] as int, MachineState { ip: st.ip + 1, ..st }))
        } else {
            None
        }
    } else {
        if st.ip + 1 < code.len() {
            Some(
                (
                    code[st.ip] * 256 + code[st.ip + 1],
                    MachineState { ip: st.ip + 2, ..st },
                ),
            )
        } else {
            None
        }
    }
}

/// The error message for a failed operand read.
pub open spec fn spec_read_fail_message(width: int) -> Seq<char> {
    if width == 1 {
        "Read byte out of bounds"@
    } else {
        "Read short out of bounds"@
    }
}

/// `Constant` / `ConstantLong`: push the referenced constant.
pub open spec fn spec_step_constant_push(
    code: Seq<u8>,
    consts: Seq<Value>,
    st: MachineState,
    width: int,
) -> MachineResult
    decreases code.len() - st.ip, 1int,
{
    match spec_read_index(code, st, width) {
        None => MachineResult::Failed { message: spec_read_fail_message(width), state: st },
        Some((idx, st2)) => {
            if idx >= consts.len() {
                MachineResult::Failed { message: "Invalid constant reference"@, state: st2 }
            } else if st2.stack.len() >= STACK_MAX {
                MachineResult::Failed { message: "Stack overflow"@, state: st2 }
            } else {
                spec_run_machine(
                    code,
                    consts,
                    MachineState { stack: st2.stack.push(consts[idx]), ..st2 },
                )
            }
        },
    }
}

/// `Nil` / `True` / `False`: push the literal.
pub open spec fn spec_step_push_literal(
    code: Seq<u8>,
    consts: Seq<Value>,
    st: MachineState,
    v: Value,
) -> MachineResult
    decreases code.len() - st.ip, 1int,
{
    if st.stack.len() >= STACK_MAX {
        MachineResult::Failed { message: "Stack overflow"@, state: st }
    } else {
        spec_run_machine(code, consts, MachineState { stack: st.stack.push(v), ..st })
    }
}

/// `Get` / `GetLong`: look the name constant up in the globals and push the
/// bound value; an unbound name is a runtime error.
pub open spec fn spec_step_get(
    code: Seq<u8>,
    consts: Seq<Value>,
    st: MachineState,
    width: int,
) -> MachineResult
    decreases code.len() - st.ip, 1int,
{
    match spec_read_index(code, st, width) {
        None => MachineResult::Failed { message: spec_read_fail_message(width), state: st },
        Some((idx, st2)) => {
            if idx >= consts.len() {
                MachineResult::Failed { message: "Invalid constant reference"@, state: st2 }
            } else {
                match consts[idx] {
                    Value::Object(r) => {
                        let name = st2.heap[r.index as int];
                        if st2.globals.dom().contains(name) {
                            if st2.stack.len() >= STACK_MAX {
                                MachineResult::Failed { message: "Stack overflow"@, state: st2 }
                            } else {
                                spec_run_machine(
                                    code,
                                    consts,
                                    MachineState {
                                        stack: st2.stack.push(st2.globals[name]),
                                        ..st2
                                    },
                                )
                            }
                        } else {
                            MachineResult::Failed {
                                message: "Undefined variable: "@ + name,
                                state: st2,
                            }
                        }
                    },
                    _ => MachineResult::Failed {
                        message: "Expected string as name"@,
                        state: st2,
                    },
                }
            }
        },
    }
}

/// `DefineGlobal` / `DefineGlobalLong`: pop a value and bind it to the name
/// constant, overwriting any existing binding.
pub open spec fn spec_step_define(
    code: Seq<u8>,
    consts: Seq<Value>,
    st: MachineState,
    width: int,
) -> MachineResult
    decreases code.len() - st.ip, 1int,
{
    match spec_read_index(code, st, width) {
        None => MachineResult::Failed { message: spec_read_fail_message(width), state: st },
        Some((idx, st2)) => {
            if idx >= consts.len() {
                MachineResult::Failed { message: "Invalid constant reference"@, state: st2 }
            } else {
                match consts[idx] {
                    Value::Object(r) => {
                        let name = st2.heap[r.index as int];
                        if st2.stack.len() == 0 {
                            MachineResult::Failed { message: "Stack underflow"@, state: st2 }
                        } else {
                            spec_run_machine(
                                code,
                                consts,
                                MachineState {
                                    stack: st2.stack.drop_last(),
                                    globals: st2.globals.insert(name, st2.stack.last()),
                                    ..st2
                                },
                            )
                        }
                    },
                    _ => MachineResult::Failed {
                        message: "Expected string as name"@,
                        state: st2,
                    },
                }
            }
        },
    }
}

/// `Less` / `Greater`: pop two values; both must be numbers.
pub open spec fn spec_step_compare(
    code: Seq<u8>,
    consts: Seq<Value>,
    st: MachineState,
    greater: bool,
) -> MachineResult
    decreases code.len() - st.ip, 1int,
{
    if st.stack.len() < 2 {
        MachineResult::Failed { message: "Stack underflow"@, state: spec_drain(st) }
    } else {
        let a = st.stack[st.stack.len() - 2];
        let b = st.stack[st.stack.len() - 1];
        match (a, b) {
            (Value::Number(x), Value::Number(y)) => spec_run_machine(
                code,
                consts,
                spec_replace_top2(
                    st,
                    Value::Boolean(
                        if greater {
                            x > y
                        } else {
                            x < y
                        },
                    ),
                ),
            ),
            _ => MachineResult::Failed {
                message: "Invalid type for comparison: "@ + spec_value_display(a, st.heap) + " "@
                    + spec_value_display(b, st.heap),
                state: MachineState { stack: st.stack.drop_last().drop_last(), ..st },
            },
        }
    }
}

/// `Add`: numbers add (wrapping); strings concatenate and intern; anything
/// else is a runtime error naming both operands, first pushed first.
pub open spec fn spec_step_add(code: Seq<u8>, consts: Seq<Value>, st: MachineState)
    -> MachineResult
    decreases code.len() - st.ip, 1int,
{
    if st.stack.len() < 2 {
        MachineResult::Failed { message: "Stack underflow"@, state: spec_drain(st) }
    } else {
        let a = st.stack[st.stack.len() - 2];
        let b = st.stack[st.stack.len() - 1];
        match (a, b) {
            (Value::Number(x), Value::Number(y)) => spec_run_machine(
                code,
                consts,
                spec_replace_top2(st, Value::Number(x.wrapping_add(y))),
            ),
            (Value::Object(ra), Value::Object(rb)) => {
                let joined = st.heap[ra.index as int] + st.heap[rb.index as int];
                let new_heap = spec_intern_heap(st.heap, joined);
                let r = ObjRef { index: spec_intern_ref(st.heap, joined) as usize };
                spec_run_machine(
                    code,
                    consts,
                    MachineState {
                        heap: new_heap,
                        ..spec_replace_top2(st, Value::Object(r))
                    },
                )
            },
            _ => MachineResult::Failed {
                message: "Invalid type for addition: "@ + spec_value_display(a, st.heap) + " "@
                    + spec_value_display(b, st.heap),
                state: MachineState { stack: st.stack.drop_last().drop_last(), ..st },
            },
        }
    }
}

/// `Subtract` / `Multiply` / `Divide`: both operands must be numbers;
/// arithmetic wraps, and division by zero gives zero.
pub open spec fn spec_step_arith(
    code: Seq<u8>,
    consts: Seq<Value>,
    st: MachineState,
    op: OpCode,
) -> MachineResult
    decreases code.len() - st.ip, 1int,
{
    if st.stack.len() < 2 {
        MachineResult::Failed { message: "Stack underflow"@, state: spec_drain(st) }
    } else {
        let a = st.stack[st.stack.len() - 2];
        let b = st.stack[st.stack.len() - 1];
        match (a, b) {
            (Value::Number(x), Value::Number(y)) => spec_run_machine(
                code,
                consts,
                spec_replace_top2(
                    st,
                    Value::Number(
                        if op == OpCode::Subtract {
                            x.wrapping_sub(y)
                        } else if op == OpCode::Multiply {
                            x.wrapping_mul(y)
                        } else {
                            spec_div_wrap(x, y)
                        },
                    ),
                ),
            ),
            _ => MachineResult::Failed {
                message: (if op == OpCode::Subtract {
                    "Invalid type for subtraction: "@
                } else if op == OpCode::Multiply {
                    "Invalid type for multiplication: "@
                } else {
                    "Invalid type for division: "@
                }) + spec_value_display(a, st.heap) + " "@ + spec_value_display(b, st.heap),
                state: MachineState { stack: st.stack.drop_last().drop_last(), ..st },
            },
        }
    }
}

/// A runtime error with the given message.
fn runtime_error(msg: &str) -> (e: InterpreterError)
    ensures
        e matches InterpreterError::RuntimeError(m) && m@ == msg@,
{
    InterpreterError::RuntimeError(msg.to_owned())
}

/// What one dispatch step decided: keep executing, or stop with the run's
/// result.
enum StepOutcome {
    KeepGoing,
    Finished(Result<Value, InterpreterError>),
}

pub struct VM {
    ip: usize,
    config: VMConfig,
    stack: Vec<Value>,
    globals: Table<Value>,
    output: String,
}

impl VM {
    /// The stack never exceeds its fixed capacity and the globals table is
    /// well formed.
    pub closed spec fn wf(&self) -> bool {
        &&& self.stack@.len() <= STACK_MAX
        &&& self.globals.wf()
    }

    pub closed spec fn spec_ip(&self) -> int {
        self.ip as int
    }

    pub closed spec fn spec_stack(&self) -> Seq<Value> {
        self.stack@
    }

    pub closed spec fn spec_globals(&self) -> Map<Seq<char>, Value> {
        self.globals@
    }

    pub closed spec fn spec_globals_len(&self) -> nat {
        self.globals.spec_len()
    }

    pub closed spec fn spec_output(&self) -> Seq<char> {
        self.output@
    }

    /// Whether any tracing is switched on; with tracing the collected
    /// output additionally carries trace lines.
    pub closed spec fn spec_tracing(&self) -> bool {
        self.config.trace_instructions || self.config.trace_stack
    }

    pub closed spec fn spec_config(&self) -> VMConfig {
        self.config
    }

    /// The machine state this VM is in, for a given heap and a given pure
    /// (trace-free) output.
    pub open spec fn spec_state(&self, gc: &GC, pure_output: Seq<char>) -> MachineState {
        MachineState {
            ip: self.spec_ip(),
            stack: self.spec_stack(),
            globals: self.spec_globals(),
            heap: gc.spec_contents(),
            output: pure_output,
        }
    }

    pub fn new(config: VMConfig) -> (vm: VM)
        ensures
            vm.wf(),
            vm.spec_ip() == 0,
            vm.spec_stack() == Seq::<Value>::empty(),
            vm.spec_globals() == Map::<Seq<char>, Value>::empty(),
            vm.spec_globals_len() == 0,
            vm.spec_output() == Seq::<char>::empty(),
            vm.spec_tracing() == (config.trace_instructions || config.trace_stack),
    {
        VM {
            ip: 0,
            config,
            stack: Vec::new(),
            globals: Table::new(),
            output: String::new(),
        }
    }

    /// The output collected so far: everything `Print` wrote, interleaved
    /// with trace lines when tracing is on.
    pub fn output(&self) -> (r: &String)
        ensures
            r@ == self.spec_output(),
    {
        &self.output
    }

    /// Pushes a value; the 257th concurrent value does not fit and is a
    /// runtime error.
    pub fn stack_push(&mut self, value: Value) -> (r: Result<(), InterpreterError>)
        requires
            old(self).wf(),
        ensures
            final(self).wf(),
            final(self).spec_ip() == old(self).spec_ip(),
            final(self).spec_globals() == old(self).spec_globals(),
            final(self).spec_globals_len() == old(self).spec_globals_len(),
            final(self).spec_output() == old(self).spec_output(),
            final(self).spec_config() == old(self).spec_config(),
            if old(self).spec_stack().len() < STACK_MAX {
                r is Ok && final(self).spec_stack() == old(self).spec_stack().push(value)
            } else {
                (r matches Err(e) && e matches InterpreterError::RuntimeError(m) && m@
                    == "Stack overflow"@) && final(self).spec_stack() == old(self).spec_stack()
            },
    {
        if self.stack.len() == STACK_MAX {
            return Err(runtime_error("Stack overflow"));
        }
        self.stack.push(value);
        Ok(())
    }

    /// Pops a value; popping from an empty stack is a runtime error.
    pub fn stack_pop(&mut self) -> (r: Result<Value, InterpreterError>)
        requires
            old(self).wf(),
        ensures
            final(self).wf(),
            final(self).spec_ip() == old(self).spec_ip(),
            final(self).spec_globals() == old(self).spec_globals(),
            final(self).spec_globals_len() == old(self).spec_globals_len(),
            final(self).spec_output() == old(self).spec_output(),
            final(self).spec_config() == old(self).spec_config(),
            if old(self).spec_stack().len() > 0 {
                (r matches Ok(v) && v == old(self).spec_stack().last()) && final(self).spec_stack()
                    == old(self).spec_stack().drop_last()
            } else {
                (r matches Err(e) && e matches InterpreterError::RuntimeError(m) && m@
                    == "Stack underflow"@) && final(self).spec_stack() == old(self).spec_stack()
            },
    {
        if self.stack.len() == 0 {
            return Err(runtime_error("Stack underflow"));
        }
        let v = self.stack[self.stack.len() - 1];
        let n = self.stack.len();
        self.stack.truncate(n - 1);
        proof {
            assert(self.stack@ =~= old(self).stack@.drop_last());
        }
        Ok(v)
    }

    /// Pops the two operands of a binary operation: first the right one,
    /// then the left.
    fn stack_pop_binary(&mut self) -> (r: Result<(Value, Value), InterpreterError>)
        requires
            old(self).wf(),
        ensures
            final(self).wf(),
            final(self).spec_ip() == old(self).spec_ip(),
            final(self).spec_globals() == old(self).spec_globals(),
            final(self).spec_globals_len() == old(self).spec_globals_len(),
            final(self).spec_output() == old(self).spec_output(),
            final(self).spec_config() == old(self).spec_config(),
            if old(self).spec_stack().len() >= 2 {
                (r matches Ok(p) && p.0 == old(self).spec_stack()[old(self).spec_stack().len() - 2]
                    && p.1 == old(self).spec_stack().last()) && final(self).spec_stack() == old(self).spec_stack().drop_last().drop_last()
            } else {
                (r matches Err(e) && e matches InterpreterError::RuntimeError(m) && m@
                    == "Stack underflow"@) && final(self).spec_stack() == (if old(self).spec_stack().len() == 0 {
                    old(self).spec_stack()
                } else {
                    old(self).spec_stack().drop_last()
                })
            },
    {
        let b = match self.stack_pop() {
            Ok(v) => v,
            Err(e) => {
                return Err(e);
            },
        };
        let a = match self.stack_pop() {
            Ok(v) => v,
            Err(e) => {
                return Err(e);
            },
        };
        Ok((a, b))
    }

    /// Reads the byte at the instruction pointer and advances past it.
    fn read_byte(&mut self, chunk: &Chunk) -> (r: Result<u8, InterpreterError>)
        requires
            old(self).wf(),
        ensures
            final(self).wf(),
            final(self).spec_stack() == old(self).spec_stack(),
            final(self).spec_globals() == old(self).spec_globals(),
            final(self).spec_globals_len() == old(self).spec_globals_len(),
            final(self).spec_output() == old(self).spec_output(),
            final(self).spec_config() == old(self).spec_config(),
            if old(self).spec_ip() < chunk.spec_code().len() {
                (r matches Ok(b) && b == chunk.spec_code()[old(self).spec_ip()]) && final(self).spec_ip() == old(self).spec_ip() + 1
            } else {
                (r matches Err(e) && e matches InterpreterError::RuntimeError(m) && m@
                    == "Read byte out of bounds"@) && final(self).spec_ip() == old(self).spec_ip()
            },
    {
        match chunk.read_byte(self.ip) {
            Some(b) => {
                proof {
                    chunk.lemma_code_len_bound();
                }
                self.ip = self.ip + 1;
                Ok(b)
            },
            None => Err(runtime_error("Read byte out of bounds")),
        }
    }

    /// Reads a 2-byte big-endian value at the instruction pointer and
    /// advances past it.
    fn read_short(&mut self, chunk: &Chunk) -> (r: Result<u16, InterpreterError>)
        requires
            old(self).wf(),
        ensures
            final(self).wf(),
            final(self).spec_stack() == old(self).spec_stack(),
            final(self).spec_globals() == old(self).spec_globals(),
            final(self).spec_globals_len() == old(self).spec_globals_len(),
            final(self).spec_output() == old(self).spec_output(),
            final(self).spec_config() == old(self).spec_config(),
            if old(self).spec_ip() + 1 < chunk.spec_code().len() {
                (r matches Ok(v) && v == chunk.spec_code()[old(self).spec_ip()] * 256
                    + chunk.spec_code()[old(self).spec_ip() + 1]) && final(self).spec_ip() == old(self).spec_ip() + 2
            } else {
                (r matches Err(e) && e matches InterpreterError::RuntimeError(m) && m@
                    == "Read short out of bounds"@) && final(self).spec_ip() == old(self).spec_ip()
            },
    {
        match chunk.read_short(self.ip) {
            Some(v) => {
                proof {
                    chunk.lemma_code_len_bound();
                }
                self.ip = self.ip + 2;
                Ok(v)
            },
            None => Err(runtime_error("Read short out of bounds")),
        }
    }

    /// Writes the stack contents as one trace line.
    fn trace_stack(&mut self, gc: &GC)
        requires
            old(self).wf(),
            gc.wf(),
            values_valid(old(self).spec_stack(), gc.spec_len()),
        ensures
            final(self).wf(),
            final(self).spec_ip() == old(self).spec_ip(),
            final(self).spec_stack() == old(self).spec_stack(),
            final(self).spec_globals() == old(self).spec_globals(),
            final(self).spec_globals_len() == old(self).spec_globals_len(),
            final(self).spec_config() == old(self).spec_config(),
    {
        self.output.append("Stack:");
        let mut i: usize = 0;
        let n = self.stack.len();
        while i < n
            invariant
                self.wf(),
                gc.wf(),
                n == self.stack@.len(),
                i <= n,
                values_valid(self.spec_stack(), gc.spec_len()),
                self.spec_ip() == old(self).spec_ip(),
                self.spec_stack() == old(self).spec_stack(),
                self.spec_globals() == old(self).spec_globals(),
                self.spec_globals_len() == old(self).spec_globals_len(),
                self.spec_config() == old(self).spec_config(),
            decreases n - i,
        {
            let v = self.stack[i];
            let text = value_display(v, gc);
            self.output.append("[");
            self.output.append(text.as_str());
            self.output.append("]");
            i = i + 1;
        }
        self.output.append("\n");
    }

    /// Reads a constant-pool index operand: one byte for the short forms,
    /// a 2-byte big-endian value for the long forms.
    fn read_index(&mut self, chunk: &Chunk, long: bool) -> (r: Result<usize, InterpreterError>)
        requires
            old(self).wf(),
        ensures
            final(self).wf(),
            final(self).spec_stack() == old(self).spec_stack(),
            final(self).spec_globals() == old(self).spec_globals(),
            final(self).spec_globals_len() == old(self).spec_globals_len(),
            final(self).spec_output() == old(self).spec_output(),
            final(self).spec_config() == old(self).spec_config(),
            ({
                let width: int = if long {
                    2
                } else {
                    1
                };
                let pre = MachineState {
                    ip: old(self).spec_ip(),
                    stack: old(self).spec_stack(),
                    globals: old(self).spec_globals(),
                    heap: Seq::empty(),
                    output: Seq::empty(),
                };
                match spec_read_index(chunk.spec_code(), pre, width) {
                    Some(p) => (r matches Ok(idx) && idx == p.0) && final(self).spec_ip() == p.1.ip,
                    None => (r matches Err(e) && e matches InterpreterError::RuntimeError(m) && m@
                        == spec_read_fail_message(width)) && final(self).spec_ip() == old(
                        self,
                    ).spec_ip(),
                }
            }),
    {
        if long {
            match self.read_short(chunk) {
                Ok(v) => Ok(v as usize),
                Err(e) => Err(e),
            }
        } else {
            match self.read_byte(chunk) {
                Ok(b) => Ok(b as usize),
                Err(e) => Err(e),
            }
        }
    }

    /// Writes the disassembly of the instruction about to execute as one
    /// trace line.
    fn trace_instruction(&mut self, chunk: &Chunk, gc: &GC)
        requires
            old(self).wf(),
            chunk.wf(),
            gc.wf(),
            values_valid(chunk.spec_constants(), gc.spec_len()),
        ensures
            final(self).wf(),
            final(self).spec_ip() == old(self).spec_ip(),
            final(self).spec_stack() == old(self).spec_stack(),
            final(self).spec_globals() == old(self).spec_globals(),
            final(self).spec_globals_len() == old(self).spec_globals_len(),
            final(self).spec_config() == old(self).spec_config(),
    {
        match disassemble_instruction(chunk, gc, self.ip) {
            Some((_, description)) => {
                self.output.append(description.as_str());
                self.output.append("\n");
            },
            None => {
                self.output.append("[END OF CHUNK]\n");
            },
        }
    }
}

/// Everything a dispatch step preserves regardless of the opcode: well-
/// formedness, heap monotonicity and the validity of every reachable
/// handle, with at most one interned string and one global binding added.
spec fn step_frame(pre_self: VM, pre_gc: GC, post_self: VM, post_gc: GC,
    consts: Seq<Value>) -> bool {
    &&& post_self.wf()
    &&& post_gc.wf()
    &&& pre_gc.spec_len() <= post_gc.spec_len() <= pre_gc.spec_len() + 1
    &&& post_self.spec_globals_len() <= pre_self.spec_globals_len() + 1
    &&& forall|q: ObjRef|
        pre_gc.spec_valid(q) ==> post_gc.spec_valid(q) && post_gc.spec_content(q)
            == pre_gc.spec_content(q)
    &&& values_valid(post_self.spec_stack(), post_gc.spec_len())
    &&& map_values_valid(post_self.spec_globals(), post_gc.spec_len())
    &&& values_valid(consts, post_gc.spec_len())
    &&& post_self.spec_config() == pre_self.spec_config()
    &&& post_self.spec_ip() >= pre_self.spec_ip()
}

/// What a dispatch step decided, against the machine: continuing preserves
/// the machine's outcome, and stopping returns exactly the value or error
/// the machine prescribes, in the prescribed state.
spec fn step_post(
    code: Seq<u8>,
    consts: Seq<Value>,
    pre: MachineState,
    post_self: VM,
    post_gc: GC,
    oc: StepOutcome,
    pure2: Seq<char>,
) -> bool {
    match oc {
        StepOutcome::KeepGoing => {
            &&& post_self.spec_ip() > pre.ip
            &&& post_self.spec_ip() <= code.len()
            &&& spec_run_machine(code, consts, pre) == spec_run_machine(
                code,
                consts,
                post_self.spec_state(&post_gc, pure2),
            )
        },
        StepOutcome::Finished(r) => {
            match spec_run_machine(code, consts, pre) {
                MachineResult::Done { value, state } => {
                    &&& r matches Ok(v) && v == value
                    &&& post_self.spec_ip() == state.ip
                    &&& post_self.spec_stack() == state.stack
                    &&& post_self.spec_globals() == state.globals
                    &&& post_gc.spec_contents() == state.heap
                    &&& pure2 == state.output
                },
                MachineResult::Failed { message, state } => {
                    &&& r matches Err(e) && (e matches InterpreterError::RuntimeError(m) && m@
                        == message)
                    &&& post_self.spec_ip() == state.ip
                    &&& post_self.spec_stack() == state.stack
                    &&& post_self.spec_globals() == state.globals
                    &&& post_gc.spec_contents() == state.heap
                    &&& pure2 == state.output
                },
            }
        },
    }
}

impl VM {
    /// `Constant` / `ConstantLong`: push the referenced constant.
    fn op_constant(&mut self, chunk: &Chunk, gc: &mut GC, long: bool, pure_out: Ghost<Seq<char>>,
        pre: Ghost<MachineState>) -> (res: (StepOutcome, Ghost<Seq<char>>))
        requires
            old(self).wf(),
            chunk.wf(),
            old(gc).wf(),
            values_valid(chunk.spec_constants(), old(gc).spec_len()),
            values_valid(old(self).spec_stack(), old(gc).spec_len()),
            map_values_valid(old(self).spec_globals(), old(gc).spec_len()),
            !old(self).spec_tracing() ==> old(self).spec_output() == pure_out@,
            pre@.ip < old(self).spec_ip() <= chunk.spec_code().len(),
            spec_run_machine(chunk.spec_code(), chunk.spec_constants(), pre@)
                == spec_step_constant_push(
                chunk.spec_code(),
                chunk.spec_constants(),
                old(self).spec_state(old(gc), pure_out@),
                if long {
                    2int
                } else {
                    1int
                },
            ),
        ensures
            step_frame(*old(self), *old(gc), *final(self), *final(gc), chunk.spec_constants()),
            !old(self).spec_tracing() ==> final(self).spec_output() == res.1@,
            step_post(
                chunk.spec_code(),
                chunk.spec_constants(),
                pre@,
                *final(self),
                *final(gc),
                res.0,
                res.1@,
            ),
    {
        let ghost code = chunk.spec_code();
        let ghost consts = chunk.spec_constants();
        let ghost st1 = old(self).spec_state(old(gc), pure_out@);
        let ghost width: int = if long {
            2
        } else {
            1
        };
        let idx = match self.read_index(chunk, long) {
            Ok(i) => i,
            Err(e) => {
                return (StepOutcome::Finished(Err(e)), pure_out);
            },
        };
        if idx >= chunk.const_count() {
            return (
                StepOutcome::Finished(Err(runtime_error("Invalid constant reference"))),
                pure_out,
            );
        }
        let constant = chunk.get_constant(idx);
        match self.stack_push(constant) {
            Ok(_) => {
                proof {
                    let st2 = MachineState { ip: self.spec_ip(), ..st1 };
                    assert(self.spec_state(gc, pure_out@)
                        =~= (MachineState { stack: st2.stack.push(consts[idx as int]), ..st2 }));
                }
                (StepOutcome::KeepGoing, pure_out)
            },
            Err(e) => (StepOutcome::Finished(Err(e)), pure_out),
        }
    }

    /// `Get` / `GetLong`: look the name constant up in the globals.
    fn op_get(&mut self, chunk: &Chunk, gc: &mut GC, long: bool, pure_out: Ghost<Seq<char>>,
        pre: Ghost<MachineState>) -> (res: (StepOutcome, Ghost<Seq<char>>))
        requires
            old(self).wf(),
            chunk.wf(),
            old(gc).wf(),
            values_valid(chunk.spec_constants(), old(gc).spec_len()),
            values_valid(old(self).spec_stack(), old(gc).spec_len()),
            map_values_valid(old(self).spec_globals(), old(gc).spec_len()),
            !old(self).spec_tracing() ==> old(self).spec_output() == pure_out@,
            pre@.ip < old(self).spec_ip() <= chunk.spec_code().len(),
            spec_run_machine(chunk.spec_code(), chunk.spec_constants(), pre@) == spec_step_get(
                chunk.spec_code(),
                chunk.spec_constants(),
                old(self).spec_state(old(gc), pure_out@),
                if long {
                    2int
                } else {
                    1int
                },
            ),
        ensures
            step_frame(*old(self), *old(gc), *final(self), *final(gc), chunk.spec_constants()),
            !old(self).spec_tracing() ==> final(self).spec_output() == res.1@,
            step_post(
                chunk.spec_code(),
                chunk.spec_constants(),
                pre@,
                *final(self),
                *final(gc),
                res.0,
                res.1@,
            ),
    {
        let ghost code = chunk.spec_code();
        let ghost consts = chunk.spec_constants();
        let ghost st1 = old(self).spec_state(old(gc), pure_out@);
        let idx = match self.read_index(chunk, long) {
            Ok(i) => i,
            Err(e) => {
                return (StepOutcome::Finished(Err(e)), pure_out);
            },
        };
        if idx >= chunk.const_count() {
            return (
                StepOutcome::Finished(Err(runtime_error("Invalid constant reference"))),
                pure_out,
            );
        }
        let name_val = chunk.get_constant(idx);
        match name_val {
            Value::Object(name_ref) => {
                let name_string = gc.get_obj(name_ref).unwrap_string();
                let looked_up: Option<Value> = match self.globals.get(name_string) {
                    Some(v) => Some(*v),
                    None => None,
                };
                match looked_up {
                    Some(value) => {
                        match self.stack_push(value) {
                            Ok(_) => {
                                proof {
                                    let name = gc.spec_contents()[name_ref.index as int];
                                    let st2 = MachineState { ip: self.spec_ip(), ..st1 };
                                    assert(self.spec_state(gc, pure_out@)
                                        =~= (MachineState {
                                        stack: st2.stack.push(st2.globals[name]),
                                        ..st2
                                    }));
                                }
                                (StepOutcome::KeepGoing, pure_out)
                            },
                            Err(e) => (StepOutcome::Finished(Err(e)), pure_out),
                        }
                    },
                    None => {
                        let mut m = String::new();
                        m.append("Undefined variable: ");
                        m.append(name_string.get_value().as_str());
                        proof {
                            let name = gc.spec_contents()[name_ref.index as int];
                            assert(m@ =~= "Undefined variable: "@ + name);
                        }
                        (StepOutcome::Finished(Err(InterpreterError::RuntimeError(m))), pure_out)
                    },
                }
            },
            _ => {
                (StepOutcome::Finished(Err(runtime_error("Expected string as name"))), pure_out)
            },
        }
    }

    /// `DefineGlobal` / `DefineGlobalLong`: pop a value and bind it.
    fn op_define(&mut self, chunk: &Chunk, gc: &mut GC, long: bool, pure_out: Ghost<Seq<char>>,
        pre: Ghost<MachineState>) -> (res: (StepOutcome, Ghost<Seq<char>>))
        requires
            old(self).wf(),
            chunk.wf(),
            old(gc).wf(),
            values_valid(chunk.spec_constants(), old(gc).spec_len()),
            values_valid(old(self).spec_stack(), old(gc).spec_len()),
            map_values_valid(old(self).spec_globals(), old(gc).spec_len()),
            old(self).spec_globals_len() < usize::MAX / 8,
            !old(self).spec_tracing() ==> old(self).spec_output() == pure_out@,
            pre@.ip < old(self).spec_ip() <= chunk.spec_code().len(),
            spec_run_machine(chunk.spec_code(), chunk.spec_constants(), pre@) == spec_step_define(
                chunk.spec_code(),
                chunk.spec_constants(),
                old(self).spec_state(old(gc), pure_out@),
                if long {
                    2int
                } else {
                    1int
                },
            ),
        ensures
            step_frame(*old(self), *old(gc), *final(self), *final(gc), chunk.spec_constants()),
            !old(self).spec_tracing() ==> final(self).spec_output() == res.1@,
            step_post(
                chunk.spec_code(),
                chunk.spec_constants(),
                pre@,
                *final(self),
                *final(gc),
                res.0,
                res.1@,
            ),
    {
        let ghost code = chunk.spec_code();
        let ghost consts = chunk.spec_constants();
        let ghost st1 = old(self).spec_state(old(gc), pure_out@);
        let idx = match self.read_index(chunk, long) {
            Ok(i) => i,
            Err(e) => {
                return (StepOutcome::Finished(Err(e)), pure_out);
            },
        };
        if idx >= chunk.const_count() {
            return (
                StepOutcome::Finished(Err(runtime_error("Invalid constant reference"))),
                pure_out,
            );
        }
        let name_val = chunk.get_constant(idx);
        match name_val {
            Value::Object(name_ref) => {
                let value = match self.stack_pop() {
                    Ok(v) => v,
                    Err(e) => {
                        return (StepOutcome::Finished(Err(e)), pure_out);
                    },
                };
                let name_string = gc.get_obj(name_ref).unwrap_string();
                let key_copy = name_string.clone();
                self.globals.set(&key_copy, value);
                proof {
                    let name = gc.spec_contents()[name_ref.index as int];
                    let st2 = MachineState { ip: self.spec_ip(), ..st1 };
                    assert(self.spec_state(gc, pure_out@)
                        =~= (MachineState {
                        stack: st2.stack.drop_last(),
                        globals: st2.globals.insert(name, st2.stack.last()),
                        ..st2
                    }));
                }
                (StepOutcome::KeepGoing, pure_out)
            },
            _ => {
                (StepOutcome::Finished(Err(runtime_error("Expected string as name"))), pure_out)
            },
        }
    }

    /// `Less` / `Greater`: pop two numbers and push the comparison.
    fn op_compare(&mut self, gc: &mut GC, chunk: &Chunk, greater: bool,
        pure_out: Ghost<Seq<char>>, pre: Ghost<MachineState>) -> (res: (
        StepOutcome,
        Ghost<Seq<char>>,
    ))
        requires
            old(self).wf(),
            chunk.wf(),
            old(gc).wf(),
            values_valid(chunk.spec_constants(), old(gc).spec_len()),
            values_valid(old(self).spec_stack(), old(gc).spec_len()),
            map_values_valid(old(self).spec_globals(), old(gc).spec_len()),
            !old(self).spec_tracing() ==> old(self).spec_output() == pure_out@,
            pre@.ip < old(self).spec_ip() <= chunk.spec_code().len(),
            spec_run_machine(chunk.spec_code(), chunk.spec_constants(), pre@) == spec_step_compare(
                chunk.spec_code(),
                chunk.spec_constants(),
                old(self).spec_state(old(gc), pure_out@),
                greater,
            ),
        ensures
            step_frame(*old(self), *old(gc), *final(self), *final(gc), chunk.spec_constants()),
            !old(self).spec_tracing() ==> final(self).spec_output() == res.1@,
            step_post(
                chunk.spec_code(),
                chunk.spec_constants(),
                pre@,
                *final(self),
                *final(gc),
                res.0,
                res.1@,
            ),
    {
        let ghost st1 = old(self).spec_state(old(gc), pure_out@);
        let pair = match self.stack_pop_binary() {
            Ok(p) => p,
            Err(e) => {
                return (StepOutcome::Finished(Err(e)), pure_out);
            },
        };
        let (a, b) = pair;
        match (a, b) {
            (Value::Number(x), Value::Number(y)) => {
                let outcome = if greater {
                    x > y
                } else {
                    x < y
                };
                match self.stack_push(Value::Boolean(outcome)) {
                    Ok(_) => {
                        proof {
                            assert(self.spec_state(gc, pure_out@)
                                =~= spec_replace_top2(st1, Value::Boolean(outcome)));
                        }
                        (StepOutcome::KeepGoing, pure_out)
                    },
                    Err(e) => {
                        proof {
                            assert(false);
                        }
                        (StepOutcome::Finished(Err(e)), pure_out)
                    },
                }
            },
            _ => {
                let mut m = String::new();
                m.append("Invalid type for comparison: ");
                m.append(value_display(a, gc).as_str());
                m.append(" ");
                m.append(value_display(b, gc).as_str());
                proof {
                    assert(m@ =~= "Invalid type for comparison: "@ + spec_value_display(
                        a,
                        st1.heap,
                    ) + " "@ + spec_value_display(b, st1.heap));
                }
                (StepOutcome::Finished(Err(InterpreterError::RuntimeError(m))), pure_out)
            },
        }
    }

    /// `Add`: numbers add, strings concatenate and intern.
    fn op_add(&mut self, chunk: &Chunk, gc: &mut GC, pure_out: Ghost<Seq<char>>,
        pre: Ghost<MachineState>) -> (res: (StepOutcome, Ghost<Seq<char>>))
        requires
            old(self).wf(),
            chunk.wf(),
            old(gc).wf(),
            values_valid(chunk.spec_constants(), old(gc).spec_len()),
            values_valid(old(self).spec_stack(), old(gc).spec_len()),
            map_values_valid(old(self).spec_globals(), old(gc).spec_len()),
            old(gc).spec_len() < usize::MAX / 8,
            !old(self).spec_tracing() ==> old(self).spec_output() == pure_out@,
            pre@.ip < old(self).spec_ip() <= chunk.spec_code().len(),
            spec_run_machine(chunk.spec_code(), chunk.spec_constants(), pre@) == spec_step_add(
                chunk.spec_code(),
                chunk.spec_constants(),
                old(self).spec_state(old(gc), pure_out@),
            ),
        ensures
            step_frame(*old(self), *old(gc), *final(self), *final(gc), chunk.spec_constants()),
            !old(self).spec_tracing() ==> final(self).spec_output() == res.1@,
            step_post(
                chunk.spec_code(),
                chunk.spec_constants(),
                pre@,
                *final(self),
                *final(gc),
                res.0,
                res.1@,
            ),
    {
        let ghost st1 = old(self).spec_state(old(gc), pure_out@);
        let pair = match self.stack_pop_binary() {
            Ok(p) => p,
            Err(e) => {
                return (StepOutcome::Finished(Err(e)), pure_out);
            },
        };
        let (a, b) = pair;
        match (a, b) {
            (Value::Number(x), Value::Number(y)) => {
                match self.stack_push(Value::Number(x.wrapping_add(y))) {
                    Ok(_) => {
                        proof {
                            assert(self.spec_state(gc, pure_out@)
                                =~= spec_replace_top2(st1, Value::Number(x.wrapping_add(y))));
                        }
                        (StepOutcome::KeepGoing, pure_out)
                    },
                    Err(e) => {
                        proof {
                            assert(false);
                        }
                        (StepOutcome::Finished(Err(e)), pure_out)
                    },
                }
            },
            (Value::Object(ra), Value::Object(rb)) => {
                let mut joined = String::new();
                joined.append(gc.get_obj(ra).unwrap_string().get_value().as_str());
                joined.append(gc.get_obj(rb).unwrap_string().get_value().as_str());
                let ghost jview = joined@;
                let ghost pre_heap = gc.spec_contents();
                proof {
                    crate::gc::lemma_contents_distinct(gc);
                }
                let interned = gc.alloc_string(joined);
                proof {
                    lemma_alloc_matches_intern(old(gc), gc, pre_heap, jview, interned);
                }
                match self.stack_push(Value::Object(interned)) {
                    Ok(_) => {
                        proof {
                            assert(self.spec_state(gc, pure_out@)
                                =~= (MachineState {
                                heap: spec_intern_heap(pre_heap, jview),
                                ..spec_replace_top2(st1, Value::Object(interned))
                            }));
                        }
                        (StepOutcome::KeepGoing, pure_out)
                    },
                    Err(e) => {
                        proof {
                            assert(false);
                        }
                        (StepOutcome::Finished(Err(e)), pure_out)
                    },
                }
            },
            _ => {
                let mut m = String::new();
                m.append("Invalid type for addition: ");
                m.append(value_display(a, gc).as_str());
                m.append(" ");
                m.append(value_display(b, gc).as_str());
                proof {
                    assert(m@ =~= "Invalid type for addition: "@ + spec_value_display(a, st1.heap)
                        + " "@ + spec_value_display(b, st1.heap));
                }
                (StepOutcome::Finished(Err(InterpreterError::RuntimeError(m))), pure_out)
            },
        }
    }

    /// `Subtract` / `Multiply` / `Divide`: pop two numbers and push the
    /// wrapping result.
    fn op_arith(&mut self, chunk: &Chunk, gc: &mut GC, instruction: OpCode,
        pure_out: Ghost<Seq<char>>, pre: Ghost<MachineState>) -> (res: (
        StepOutcome,
        Ghost<Seq<char>>,
    ))
        requires
            old(self).wf(),
            chunk.wf(),
            old(gc).wf(),
            values_valid(chunk.spec_constants(), old(gc).spec_len()),
            values_valid(old(self).spec_stack(), old(gc).spec_len()),
            map_values_valid(old(self).spec_globals(), old(gc).spec_len()),
            !old(self).spec_tracing() ==> old(self).spec_output() == pure_out@,
            pre@.ip < old(self).spec_ip() <= chunk.spec_code().len(),
            instruction == OpCode::Subtract || instruction == OpCode::Multiply || instruction
                == OpCode::Divide,
            spec_run_machine(chunk.spec_code(), chunk.spec_constants(), pre@) == spec_step_arith(
                chunk.spec_code(),
                chunk.spec_constants(),
                old(self).spec_state(old(gc), pure_out@),
                instruction,
            ),
        ensures
            step_frame(*old(self), *old(gc), *final(self), *final(gc), chunk.spec_constants()),
            !old(self).spec_tracing() ==> final(self).spec_output() == res.1@,
            step_post(
                chunk.spec_code(),
                chunk.spec_constants(),
                pre@,
                *final(self),
                *final(gc),
                res.0,
                res.1@,
            ),
    {
        let ghost st1 = old(self).spec_state(old(gc), pure_out@);
        let pair = match self.stack_pop_binary() {
            Ok(p) => p,
            Err(e) => {
                return (StepOutcome::Finished(Err(e)), pure_out);
            },
        };
        let (a, b) = pair;
        match (a, b) {
            (Value::Number(x), Value::Number(y)) => {
                let result: i64 = match instruction {
                    OpCode::Subtract => x.wrapping_sub(y),
                    OpCode::Multiply => x.wrapping_mul(y),
                    _ => {
                        if y == 0 {
                            0
                        } else {
                            match x.checked_div(y) {
                                Some(q) => q,
                                None => i64::MIN,
                            }
                        }
                    },
                };
                match self.stack_push(Value::Number(result)) {
                    Ok(_) => {
                        proof {
                            assert(self.spec_state(gc, pure_out@)
                                =~= spec_replace_top2(st1, Value::Number(result)));
                        }
                        (StepOutcome::KeepGoing, pure_out)
                    },
                    Err(e) => {
                        proof {
                            assert(false);
                        }
                        (StepOutcome::Finished(Err(e)), pure_out)
                    },
                }
            },
            _ => {
                let mut m = String::new();
                let prefix: &str = match instruction {
                    OpCode::Subtract => "Invalid type for subtraction: ",
                    OpCode::Multiply => "Invalid type for multiplication: ",
                    _ => "Invalid type for division: ",
                };
                m.append(prefix);
                m.append(value_display(a, gc).as_str());
                m.append(" ");
                m.append(value_display(b, gc).as_str());
                proof {
                    assert(m@ =~= (if instruction == OpCode::Subtract {
                        "Invalid type for subtraction: "@
                    } else if instruction == OpCode::Multiply {
                        "Invalid type for multiplication: "@
                    } else {
                        "Invalid type for division: "@
                    }) + spec_value_display(a, st1.heap) + " "@ + spec_value_display(b, st1.heap));
                }
                (StepOutcome::Finished(Err(InterpreterError::RuntimeError(m))), pure_out)
            },
        }
    }

    /// Executes exactly one instruction, tracing first when configured, and
    /// reports whether execution goes on. One step of [`spec_run_machine`]:
    /// when execution goes on, the machine outcome from the state before
    /// equals the outcome from the state after; when it stops, the returned
    /// result and the final state are the ones the machine prescribes.
    #[verifier::rlimit(100)]
    fn step(&mut self, chunk: &Chunk, gc: &mut GC, pure_out: Ghost<Seq<char>>) -> (res: (
        StepOutcome,
        Ghost<Seq<char>>,
    ))
        requires
            old(self).wf(),
            chunk.wf(),
            old(gc).wf(),
            values_valid(chunk.spec_constants(), old(gc).spec_len()),
            values_valid(old(self).spec_stack(), old(gc).spec_len()),
            map_values_valid(old(self).spec_globals(), old(gc).spec_len()),
            old(self).spec_globals_len() < usize::MAX / 8,
            old(gc).spec_len() < usize::MAX / 8,
            !old(self).spec_tracing() ==> old(self).spec_output() == pure_out@,
        ensures
            step_frame(*old(self), *old(gc), *final(self), *final(gc), chunk.spec_constants()),
            !old(self).spec_tracing() ==> final(self).spec_output() == res.1@,
            final(self).spec_tracing() == old(self).spec_tracing(),
            step_post(
                chunk.spec_code(),
                chunk.spec_constants(),
                old(self).spec_state(old(gc), pure_out@),
                *final(self),
                *final(gc),
                res.0,
                res.1@,
            ),
    {
        let ghost code = chunk.spec_code();
        let ghost consts = chunk.spec_constants();
        let ghost pre = old(self).spec_state(old(gc), pure_out@);
        if self.config.trace_stack {
            self.trace_stack(gc);
        }
        if self.config.trace_instructions {
            self.trace_instruction(chunk, gc);
        }
        let byte = match self.read_byte(chunk) {
            Ok(b) => b,
            Err(e) => {
                return (StepOutcome::Finished(Err(e)), pure_out);
            },
        };
        let ghost st1 = MachineState { ip: pre.ip + 1, ..pre };
        proof {
            assert(st1 =~= self.spec_state(gc, pure_out@));
        }
        let instruction = match OpCode::from_byte(byte) {
            Some(op) => op,
            None => {
                let mut m = String::new();
                m.append("Unknown opcode: ");
                m.append(crate::value::u64_to_string(byte as u64).as_str());
                proof {
                    assert(m@ =~= "Unknown opcode: "@ + spec_int_string(byte as int));
                }
                return (StepOutcome::Finished(Err(InterpreterError::RuntimeError(m))), pure_out);
            },
        };
        match instruction {
            OpCode::Return => {
                match self.stack_pop() {
                    Ok(value) => (StepOutcome::Finished(Ok(value)), pure_out),
                    Err(_) => (StepOutcome::Finished(Ok(Value::Nil)), pure_out),
                }
            },
            OpCode::Constant => self.op_constant(chunk, gc, false, pure_out, Ghost(pre)),
            OpCode::ConstantLong => self.op_constant(chunk, gc, true, pure_out, Ghost(pre)),
            OpCode::Nil | OpCode::True | OpCode::False => {
                let literal = match instruction {
                    OpCode::Nil => Value::Nil,
                    OpCode::True => Value::Boolean(true),
                    _ => Value::Boolean(false),
                };
                proof {
                    assert(spec_run_machine(code, consts, pre) == spec_step_push_literal(
                        code,
                        consts,
                        st1,
                        literal,
                    ));
                }
                match self.stack_push(literal) {
                    Ok(_) => {
                        proof {
                            assert(self.spec_state(gc, pure_out@)
                                =~= (MachineState { stack: st1.stack.push(literal), ..st1 }));
                        }
                        (StepOutcome::KeepGoing, pure_out)
                    },
                    Err(e) => (StepOutcome::Finished(Err(e)), pure_out),
                }
            },
            OpCode::Pop => {
                match self.stack_pop() {
                    Ok(_) => {
                        proof {
                            assert(self.spec_state(gc, pure_out@)
                                =~= (MachineState { stack: st1.stack.drop_last(), ..st1 }));
                            assert(spec_run_machine(code, consts, pre) == spec_run_machine(
                                code,
                                consts,
                                MachineState { stack: st1.stack.drop_last(), ..st1 },
                            ));
                        }
                        (StepOutcome::KeepGoing, pure_out)
                    },
                    Err(e) => (StepOutcome::Finished(Err(e)), pure_out),
                }
            },
            OpCode::Get => self.op_get(chunk, gc, false, pure_out, Ghost(pre)),
            OpCode::GetLong => self.op_get(chunk, gc, true, pure_out, Ghost(pre)),
            OpCode::DefineGlobal => self.op_define(chunk, gc, false, pure_out, Ghost(pre)),
            OpCode::DefineGlobalLong => self.op_define(chunk, gc, true, pure_out, Ghost(pre)),
            OpCode::Equal => {
                let pair = match self.stack_pop_binary() {
                    Ok(p) => p,
                    Err(e) => {
                        return (StepOutcome::Finished(Err(e)), pure_out);
                    },
                };
                let (a, b) = pair;
                match self.stack_push(Value::Boolean(are_equal(a, b))) {
                    Ok(_) => {
                        proof {
                            assert(self.spec_state(gc, pure_out@)
                                =~= spec_replace_top2(st1, Value::Boolean(spec_are_equal(a, b))));
                            assert(spec_run_machine(code, consts, pre) == spec_run_machine(
                                code,
                                consts,
                                spec_replace_top2(st1, Value::Boolean(spec_are_equal(a, b))),
                            ));
                        }
                        (StepOutcome::KeepGoing, pure_out)
                    },
                    Err(e) => {
                        proof {
                            assert(false);
                        }
                        (StepOutcome::Finished(Err(e)), pure_out)
                    },
                }
            },
            OpCode::Less => self.op_compare(gc, chunk, false, pure_out, Ghost(pre)),
            OpCode::Greater => self.op_compare(gc, chunk, true, pure_out, Ghost(pre)),
            OpCode::Add => self.op_add(chunk, gc, pure_out, Ghost(pre)),
            OpCode::Subtract | OpCode::Multiply | OpCode::Divide => self.op_arith(
                chunk,
                gc,
                instruction,
                pure_out,
                Ghost(pre),
            ),
            OpCode::Negate => {
                let value = match self.stack_pop() {
                    Ok(v) => v,
                    Err(e) => {
                        return (StepOutcome::Finished(Err(e)), pure_out);
                    },
                };
                match value {
                    Value::Number(n) => {
                        let negated = (0i64).wrapping_sub(n);
                        match self.stack_push(Value::Number(negated)) {
                            Ok(_) => {
                                proof {
                                    assert(self.spec_state(gc, pure_out@)
                                        =~= (MachineState {
                                        stack: st1.stack.drop_last().push(Value::Number(negated)),
                                        ..st1
                                    }));
                                    assert(spec_run_machine(code, consts, pre) == spec_run_machine(
                                        code,
                                        consts,
                                        MachineState {
                                            stack: st1.stack.drop_last().push(
                                                Value::Number(negated),
                                            ),
                                            ..st1
                                        },
                                    ));
                                }
                                (StepOutcome::KeepGoing, pure_out)
                            },
                            Err(e) => {
                                proof {
                                    assert(false);
                                }
                                (StepOutcome::Finished(Err(e)), pure_out)
                            },
                        }
                    },
                    _ => {
                        let mut m = String::new();
                        m.append("Invalid type for negation: ");
                        m.append(value_display(value, gc).as_str());
                        proof {
                            assert(m@ =~= "Invalid type for negation: "@ + spec_value_display(
                                value,
                                st1.heap,
                            ));
                        }
                        (StepOutcome::Finished(Err(InterpreterError::RuntimeError(m))), pure_out)
                    },
                }
            },
            OpCode::Not => {
                let value = match self.stack_pop() {
                    Ok(v) => v,
                    Err(e) => {
                        return (StepOutcome::Finished(Err(e)), pure_out);
                    },
                };
                match self.stack_push(Value::Boolean(is_falsey(value))) {
                    Ok(_) => {
                        proof {
                            assert(self.spec_state(gc, pure_out@)
                                =~= (MachineState {
                                stack: st1.stack.drop_last().push(
                                    Value::Boolean(spec_is_falsey(value)),
                                ),
                                ..st1
                            }));
                            assert(spec_run_machine(code, consts, pre) == spec_run_machine(
                                code,
                                consts,
                                MachineState {
                                    stack: st1.stack.drop_last().push(
                                        Value::Boolean(spec_is_falsey(value)),
                                    ),
                                    ..st1
                                },
                            ));
                        }
                        (StepOutcome::KeepGoing, pure_out)
                    },
                    Err(e) => {
                        proof {
                            assert(false);
                        }
                        (StepOutcome::Finished(Err(e)), pure_out)
                    },
                }
            },
            OpCode::Print => {
                let value = match self.stack_pop() {
                    Ok(v) => v,
                    Err(e) => {
                        return (StepOutcome::Finished(Err(e)), pure_out);
                    },
                };
                let text = value_display(value, gc);
                self.output.append(text.as_str());
                self.output.append("\n");
                let ghost new_pure = pure_out@ + spec_value_display(value, gc.spec_contents())
                    + "\n"@;
                proof {
                    assert(self.spec_state(gc, new_pure)
                        =~= (MachineState {
                        stack: st1.stack.drop_last(),
                        output: st1.output + spec_value_display(value, st1.heap) + "\n"@,
                        ..st1
                    }));
                    assert(spec_run_machine(code, consts, pre) == spec_run_machine(
                        code,
                        consts,
                        MachineState {
                            stack: st1.stack.drop_last(),
                            output: st1.output + spec_value_display(value, st1.heap) + "\n"@,
                            ..st1
                        },
                    ));
                }
                (StepOutcome::KeepGoing, Ghost(new_pure))
            },
        }
    }
}

impl VM {
    /// Runs the chunk from the current instruction pointer until `Return`
    /// or a runtime error. The result, the stack, the global bindings, the
    /// heap and (when not tracing) the collected output are exactly what
    /// [`spec_run_machine`] prescribes from the starting state.
    pub fn run(&mut self, chunk: &Chunk, gc: &mut GC) -> (r: Result<Value, InterpreterError>)
        requires
            old(self).wf(),
            chunk.wf(),
            old(gc).wf(),
            values_valid(chunk.spec_constants(), old(gc).spec_len()),
            values_valid(old(self).spec_stack(), old(gc).spec_len()),
            map_values_valid(old(self).spec_globals(), old(gc).spec_len()),
            old(self).spec_globals_len() + chunk.spec_code().len() < usize::MAX / 8,
            old(gc).spec_len() + chunk.spec_code().len() < usize::MAX / 8,
        ensures
            final(self).wf(),
            final(gc).wf(),
            final(gc).spec_len() >= old(gc).spec_len(),
            forall|q: ObjRef|
                old(gc).spec_valid(q) ==> final(gc).spec_valid(q) && final(gc).spec_content(q)
                    == old(gc).spec_content(q),
            values_valid(final(self).spec_stack(), final(gc).spec_len()),
            map_values_valid(final(self).spec_globals(), final(gc).spec_len()),
            final(self).spec_config() == old(self).spec_config(),
            ({
                let outcome = spec_run_machine(
                    chunk.spec_code(),
                    chunk.spec_constants(),
                    old(self).spec_state(old(gc), old(self).spec_output()),
                );
                match outcome {
                    MachineResult::Done { value, state } => {
                        &&& r matches Ok(v) && v == value
                        &&& final(self).spec_ip() == state.ip
                        &&& final(self).spec_stack() == state.stack
                        &&& final(self).spec_globals() == state.globals
                        &&& final(gc).spec_contents() == state.heap
                        &&& (!old(self).spec_tracing() ==> final(self).spec_output()
                            == state.output)
                    },
                    MachineResult::Failed { message, state } => {
                        &&& r matches Err(e) && (e matches InterpreterError::RuntimeError(m) && m@
                            == message)
                        &&& final(self).spec_ip() == state.ip
                        &&& final(self).spec_stack() == state.stack
                        &&& final(self).spec_globals() == state.globals
                        &&& final(gc).spec_contents() == state.heap
                        &&& (!old(self).spec_tracing() ==> final(self).spec_output()
                            == state.output)
                    },
                }
            }),
    {
        let ghost code = chunk.spec_code();
        let ghost consts = chunk.spec_constants();
        let ghost st0 = old(self).spec_state(old(gc), old(self).spec_output());
        let mut pure_out: Ghost<Seq<char>> = Ghost(self.output@);
        if self.config.trace_instructions {
            self.output.append("Tracing execution:\n");
            self.output.append("Offs Line Instruction\n");
        }
        loop
            invariant
                self.wf(),
                chunk.wf(),
                gc.wf(),
                code == chunk.spec_code(),
                consts == chunk.spec_constants(),
                values_valid(consts, gc.spec_len()),
                values_valid(self.spec_stack(), gc.spec_len()),
                map_values_valid(self.spec_globals(), gc.spec_len()),
                gc.spec_len() >= old(gc).spec_len(),
                forall|q: ObjRef|
                    old(gc).spec_valid(q) ==> gc.spec_valid(q) && gc.spec_content(q) == old(
                        gc,
                    ).spec_content(q),
                st0 == old(self).spec_state(old(gc), old(self).spec_output()),
                st0.ip >= 0,
                self.spec_ip() >= st0.ip,
                self.spec_ip() <= code.len() || self.spec_ip() == st0.ip,
                self.spec_globals_len() <= old(self).spec_globals_len() + (self.spec_ip()
                    - st0.ip),
                gc.spec_len() <= old(gc).spec_len() + (self.spec_ip() - st0.ip),
                old(self).spec_globals_len() + code.len() < usize::MAX / 8,
                old(gc).spec_len() + code.len() < usize::MAX / 8,
                self.spec_config() == old(self).spec_config(),
                !old(self).spec_tracing() ==> self.spec_output() == pure_out@,
                spec_run_machine(code, consts, st0) == spec_run_machine(
                    code,
                    consts,
                    self.spec_state(gc, pure_out@),
                ),
            decreases code.len() + 1 - self.spec_ip(),
        {
            let ghost head = self.spec_state(gc, pure_out@);
            proof {
                assert(self.spec_globals_len() < usize::MAX / 8);
                assert(gc.spec_len() < usize::MAX / 8);
                assert(spec_run_machine(code, consts, st0) == spec_run_machine(
                    code,
                    consts,
                    head,
                ));
            }
            let step_result = self.step(chunk, gc, pure_out);
            let ghost oc = step_result.0;
            let outcome = step_result.0;
            pure_out = step_result.1;
            proof {
                assert(step_post(code, consts, head, *self, *gc, oc, pure_out@));
            }
            match outcome {
                StepOutcome::KeepGoing => {
                },
                StepOutcome::Finished(r) => {
                    return r;
                },
            }
        }
    }

    /// Runs a chunk from its beginning.
    pub fn interpret_chunk(&mut self, chunk: &Chunk, gc: &mut GC) -> (r: Result<
        Value,
        InterpreterError,
    >)
        requires
            old(self).wf(),
            chunk.wf(),
            old(gc).wf(),
            values_valid(chunk.spec_constants(), old(gc).spec_len()),
            values_valid(old(self).spec_stack(), old(gc).spec_len()),
            map_values_valid(old(self).spec_globals(), old(gc).spec_len()),
            old(self).spec_globals_len() + chunk.spec_code().len() < usize::MAX / 8,
            old(gc).spec_len() + chunk.spec_code().len() < usize::MAX / 8,
        ensures
            final(self).wf(),
            final(gc).wf(),
            final(gc).spec_len() >= old(gc).spec_len(),
            forall|q: ObjRef|
                old(gc).spec_valid(q) ==> final(gc).spec_valid(q) && final(gc).spec_content(q)
                    == old(gc).spec_content(q),
            values_valid(final(self).spec_stack(), final(gc).spec_len()),
            map_values_valid(final(self).spec_globals(), final(gc).spec_len()),
            final(self).spec_config() == old(self).spec_config(),
            ({
                let outcome = spec_run_machine(
                    chunk.spec_code(),
                    chunk.spec_constants(),
                    MachineState {
                        ip: 0,
                        stack: old(self).spec_stack(),
                        globals: old(self).spec_globals(),
                        heap: old(gc).spec_contents(),
                        output: old(self).spec_output(),
                    },
                );
                match outcome {
                    MachineResult::Done { value, state } => {
                        &&& r matches Ok(v) && v == value
                        &&& final(self).spec_stack() == state.stack
                        &&& final(self).spec_globals() == state.globals
                        &&& final(gc).spec_contents() == state.heap
                        &&& (!old(self).spec_tracing() ==> final(self).spec_output()
                            == state.output)
                    },
                    MachineResult::Failed { message, state } => {
                        &&& r matches Err(e) && (e matches InterpreterError::RuntimeError(m) && m@
                            == message)
                        &&& final(self).spec_stack() == state.stack
                        &&& final(self).spec_globals() == state.globals
                        &&& final(gc).spec_contents() == state.heap
                        &&& (!old(self).spec_tracing() ==> final(self).spec_output()
                            == state.output)
                    },
                }
            }),
    {
        self.ip = 0;
        self.run(chunk, gc)
    }
}

/// What reaching a `Return` instruction yields: the machine stops with the
/// value on top of the stack, or with nil when the stack is empty. Together
/// with the compiler's guarantee that every compiled chunk ends in `Return`,
/// a program that leaves a value on the stack returns that value, and a
/// program made only of statements (each of which pops what it pushed)
/// returns nil.
pub proof fn lemma_return_semantics(code: Seq<u8>, consts: Seq<Value>, st: MachineState)
    requires
        0 <= st.ip < code.len(),
        code[st.ip] == crate::chunk::spec_opcode_byte(OpCode::Return),
    ensures
        st.stack.len() == 0 ==> (spec_run_machine(code, consts, st) matches MachineResult::Done {
            value, state } && value == Value::Nil && state.stack == st.stack),
        st.stack.len() > 0 ==> (spec_run_machine(code, consts, st) matches MachineResult::Done {
            value, state } && value == st.stack.last() && state.stack == st.stack.drop_last()),
{
    crate::chunk::lemma_opcode_byte_round_trip(OpCode::Return);
}

/// Interning through the heap matches the machine's interning
/// specification: the handle `alloc_string` returned is the one
/// `spec_intern_ref` names, and the heap contents afterwards are
/// `spec_intern_heap` of the contents before.
proof fn lemma_alloc_matches_intern(
    pre: &GC,
    post: &GC,
    pre_heap: Seq<Seq<char>>,
    s: Seq<char>,
    r: ObjRef,
)
    requires
        pre.wf(),
        post.wf(),
        pre_heap == pre.spec_contents(),
        post.spec_valid(r),
        post.spec_content(r) == s,
        pre.spec_has_content(s) ==> *post == *pre,
        !pre.spec_has_content(s) ==> post.spec_len() == pre.spec_len() + 1 && r.index
            == pre.spec_len(),
        forall|q: ObjRef|
            pre.spec_valid(q) ==> post.spec_valid(q) && post.spec_content(q) == pre.spec_content(
                q,
            ),
        forall|i: int, j: int|
            0 <= i < pre.spec_len() && 0 <= j < pre.spec_len() && i != j ==> pre.spec_contents()[i]
                != pre.spec_contents()[j],
    ensures
        post.spec_contents() == spec_intern_heap(pre_heap, s),
        r.index as int == spec_intern_ref(pre_heap, s),
{
    pre.lemma_len_bound();
    post.lemma_len_bound();
    assert(pre.spec_has_content(s) == spec_heap_has(pre_heap, s)) by {
        if pre.spec_has_content(s) {
            let i = choose|i: int|
                0 <= i < pre.spec_len() && (#[trigger] pre.spec_content(
                    ObjRef { index: i as usize },
                )) == s;
            assert(pre_heap[i] == s);
        }
        if spec_heap_has(pre_heap, s) {
            let i = choose|i: int| 0 <= i < pre_heap.len() && pre_heap[i] == s;
            assert(pre.spec_content(ObjRef { index: i as usize }) == s);
        }
    }
    if pre.spec_has_content(s) {
        assert(post.spec_contents() =~= pre_heap);
        let i = spec_intern_ref(pre_heap, s);
        assert(0 <= i < pre_heap.len() && pre_heap[i] == s);
        assert(pre.spec_content(ObjRef { index: i as usize }) == s);
        assert(post.spec_content(ObjRef { index: i as usize }) == s);
        crate::gc::lemma_interning_unique(post, r, ObjRef { index: i as usize });
    } else {
        assert(post.spec_contents() =~= pre_heap.push(s)) by {
            assert forall|i: int| 0 <= i < post.spec_len() implies post.spec_contents()[i]
                == pre_heap.push(s)[i] by {
                if i < pre.spec_len() {
                    assert(post.spec_content(ObjRef { index: i as usize }) == pre.spec_content(
                        ObjRef { index: i as usize },
                    ));
                } else {
                    assert(i == pre.spec_len());
                    assert(post.spec_content(ObjRef { index: i as usize }) == s);
                }
            }
        }
        assert(r.index as int == pre_heap.len());
    }
}

} // verus!
