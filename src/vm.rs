//! The stack machine: one fetch-decode-execute step at a time.
use vstd::prelude::*;
use crate::chunk::{opcode_of, Chunk, Opcode};
use crate::debug::{carries_constant, decode_at, Disassembler, Instruction};
use crate::compiler::compile;
use crate::fault::Fault;
use crate::scanner::scan_from;

verus! {

/// Most values the operand stack holds.
pub const STACK_MAX: usize = 256;

/// How a run ended, for the caller of the machine.
#[derive(Clone, Copy, Debug, PartialEq, Eq, Structural)]
pub enum InterpretResult {
    InterpretOk,
    InterpretCompileError,
    InterpretRuntimeError,
}

/// An arithmetic operator on two operands.
#[derive(Clone, Copy, Debug, PartialEq, Eq, Structural)]
pub enum BinaryOp {
    Add,
    Subtract,
    Multiply,
    Divide,
}

/// What one step did, and what the caller owes the machine after it.
#[derive(Debug, PartialEq)]
pub enum Step<V> {
    /// A constant was pushed; nothing is owed.
    Continue,
    /// The operand was popped; push its additive inverse.
    Negate(V),
    /// Right, then left operand were popped; push `left op right`.
    Binary(BinaryOp, V, V),
    /// The top value was popped: the result of the run.
    Return(V),
}

/// The operator of an arithmetic opcode.
pub open spec fn binary_op_of(op: Opcode) -> Option<BinaryOp> {
    match op {
        Opcode::OpAdd => Some(BinaryOp::Add),
        Opcode::OpSubtract => Some(BinaryOp::Subtract),
        Opcode::OpMultiply => Some(BinaryOp::Multiply),
        Opcode::OpDivide => Some(BinaryOp::Divide),
        _ => None,
    }
}

/// Net change of the stack depth that an opcode makes, counting the push of
/// the result that the caller owes.
pub open spec fn stack_effect(op: Opcode) -> int {
    match op {
        Opcode::OpReturn => -1,
        Opcode::OpConstant => 1,
        Opcode::OpConstantLong => 1,
        Opcode::OpNegate => 0,
        _ => -1,
    }
}

/// Values the caller pushes after a step.
pub open spec fn owed<V>(s: Step<V>) -> int {
    match s {
        Step::Negate(_) => 1,
        Step::Binary(_, _, _) => 1,
        _ => 0,
    }
}

/// One step from instruction cursor `ip` over `stack`: the new cursor, the new
/// stack and what was done, or the fault met. A fault changes nothing.
pub open spec fn step_spec<V>(code: Seq<u8>, constants: Seq<V>, ip: nat, stack: Seq<V>) -> Result<
    (nat, Seq<V>, Step<V>),
    Fault,
> {
    if ip >= code.len() {
        Err(Fault::CodeExhausted)
    } else {
        match opcode_of(code[ip as int]) {
            None => Err(Fault::UnknownOpcode(code[ip as int])),
            Some(op) => match op {
                Opcode::OpReturn => if stack.len() == 0 {
                    Err(Fault::StackUnderflow)
                } else {
                    Ok((ip + 1, stack.drop_last(), Step::Return(stack.last())))
                },
                Opcode::OpConstant | Opcode::OpConstantLong => if ip + 1 >= code.len() {
                    Err(Fault::MissingOperand)
                } else if code[ip + 1int] >= constants.len() {
                    Err(Fault::ConstantOutOfRange(code[ip + 1int]))
                } else if stack.len() >= STACK_MAX {
                    Err(Fault::StackOverflow)
                } else {
                    Ok((ip + 2, stack.push(constants[code[ip + 1int] as int]), Step::Continue))
                },
                Opcode::OpNegate => if stack.len() == 0 {
                    Err(Fault::StackUnderflow)
                } else {
                    Ok((ip + 1, stack.drop_last(), Step::Negate(stack.last())))
                },
                _ => if stack.len() < 2 {
                    Err(Fault::StackUnderflow)
                } else {
                    Ok(
                        (
                            ip + 1,
                            stack.drop_last().drop_last(),
                            Step::Binary(
                                binary_op_of(op)->0,
                                stack[stack.len() - 2],
                                stack[stack.len() - 1],
                            ),
                        ),
                    )
                },
            },
        }
    }
}

/// Every opcode keeps the stack balanced: after a step that succeeds and the
/// push that the caller owes for it, the depth has changed by one more for a
/// constant, not at all for a negation, and by one less for an arithmetic
/// operator or a return.
pub proof fn lemma_stack_balance<V>(code: Seq<u8>, constants: Seq<V>, ip: nat, stack: Seq<V>)
    ensures
        step_spec(code, constants, ip, stack) matches Ok((_, after, s)) ==> after.len() + owed(s)
            == stack.len() + stack_effect(opcode_of(code[ip as int])->0),
{
}

/// A byte outside the instruction set, and a pop from an empty stack, are
/// faults of their own: a step meets them and gives no value.
pub proof fn lemma_faults_detected<V>(code: Seq<u8>, constants: Seq<V>, ip: nat, stack: Seq<V>)
    requires
        ip < code.len(),
    ensures
        opcode_of(code[ip as int]) is None ==> step_spec(code, constants, ip, stack) == Err::<
            (nat, Seq<V>, Step<V>),
            Fault,
        >(Fault::UnknownOpcode(code[ip as int])),
        stack.len() == 0 && opcode_of(code[ip as int]) is Some && !carries_constant(
            opcode_of(code[ip as int])->0,
        ) ==> step_spec(code, constants, ip, stack) == Err::<(nat, Seq<V>, Step<V>), Fault>(
            Fault::StackUnderflow,
        ),
{
}

/// A cursor into one borrowed chunk and an operand stack.
pub struct VM<'a, V> {
    chunk: &'a Chunk<V>,
    debug_trace_execution: bool,
    ip: usize,
    stack: Vec<V>,
}

impl<'a, V: Copy> VM<'a, V> {
    /// The chunk that runs.
    pub closed spec fn source(&self) -> Chunk<V> {
        *self.chunk
    }

    /// The instruction cursor.
    pub closed spec fn cursor(&self) -> nat {
        self.ip as nat
    }

    /// The operand stack, bottom first.
    pub closed spec fn stack_seq(&self) -> Seq<V> {
        self.stack@
    }

    pub closed spec fn tracing(&self) -> bool {
        self.debug_trace_execution
    }

    /// The stack is within its bound.
    pub open spec fn inv(&self) -> bool {
        self.stack_seq().len() <= STACK_MAX
    }

    pub fn new(chunk: &'a Chunk<V>) -> (r: VM<'a, V>)
        ensures
            r.inv(),
            r.source() == *chunk,
            r.cursor() == 0,
            r.stack_seq().len() == 0,
            !r.tracing(),
    {
        VM { chunk, debug_trace_execution: false, ip: 0, stack: Vec::with_capacity(STACK_MAX) }
    }

    pub fn new_with_debug(chunk: &'a Chunk<V>, debug_trace_execution: bool) -> (r: VM<'a, V>)
        ensures
            r.inv(),
            r.source() == *chunk,
            r.cursor() == 0,
            r.stack_seq().len() == 0,
            r.tracing() == debug_trace_execution,
    {
        VM { chunk, debug_trace_execution, ip: 0, stack: Vec::with_capacity(STACK_MAX) }
    }

    pub fn debug_trace_execution(&self) -> (r: bool)
        ensures
            r == self.tracing(),
    {
        self.debug_trace_execution
    }

    pub fn ip(&self) -> (r: usize)
        ensures
            r == self.cursor(),
    {
        self.ip
    }

    /// The operand stack, bottom first.
    pub fn stack(&self) -> (r: &Vec<V>)
        ensures
            r@ == self.stack_seq(),
    {
        &self.stack
    }

    /// Pushes a value; a full stack is a fault and stays as it was.
    pub fn push(&mut self, value: V) -> (r: Result<(), Fault>)
        requires
            old(self).inv(),
        ensures
            final(self).inv(),
            final(self).source() == old(self).source(),
            final(self).cursor() == old(self).cursor(),
            final(self).tracing() == old(self).tracing(),
            old(self).stack_seq().len() < STACK_MAX ==> r is Ok && final(self).stack_seq()
                == old(self).stack_seq().push(value),
            old(self).stack_seq().len() >= STACK_MAX ==> r == Err::<(), Fault>(Fault::StackOverflow)
                && final(self).stack_seq() == old(self).stack_seq(),
    {
        if self.stack.len() >= STACK_MAX {
            return Err(Fault::StackOverflow);
        }
        self.stack.push(value);
        Ok(())
    }

    /// Pops the top value; an empty stack is a fault, never a default value.
    pub fn pop(&mut self) -> (r: Result<V, Fault>)
        requires
            old(self).inv(),
        ensures
            final(self).inv(),
            final(self).source() == old(self).source(),
            final(self).cursor() == old(self).cursor(),
            final(self).tracing() == old(self).tracing(),
            old(self).stack_seq().len() > 0 ==> r == Ok::<V, Fault>(old(self).stack_seq().last())
                && final(self).stack_seq() == old(self).stack_seq().drop_last(),
            old(self).stack_seq().len() == 0 ==> r == Err::<V, Fault>(Fault::StackUnderflow)
                && final(self).stack_seq() == old(self).stack_seq(),
    {
        match self.stack.pop() {
            Some(v) => Ok(v),
            None => Err(Fault::StackUnderflow),
        }
    }

    /// Runs the front end on `source`: a compile error when it cannot be
    /// scanned, else success. The machine is not changed.
    pub fn interpret(&mut self, source: &str) -> (r: InterpretResult)
        ensures
            final(self).source() == old(self).source(),
            final(self).cursor() == old(self).cursor(),
            final(self).stack_seq() == old(self).stack_seq(),
            final(self).tracing() == old(self).tracing(),
            r == if scan_from(source@, 0, 1) is Ok {
                InterpretResult::InterpretOk
            } else {
                InterpretResult::InterpretCompileError
            },
    {
        match compile(source) {
            Ok(_) => InterpretResult::InterpretOk,
            Err(_) => InterpretResult::InterpretCompileError,
        }
    }

    /// Pops the right operand, then the left, and hands both back with the
    /// operator; the caller pushes `left op right`. With fewer than two values
    /// on the stack this is a fault and the stack stays.
    pub fn do_binary_op(&mut self, op: BinaryOp) -> (r: Result<Step<V>, Fault>)
        requires
            old(self).inv(),
        ensures
            final(self).inv(),
            final(self).source() == old(self).source(),
            final(self).cursor() == old(self).cursor(),
            final(self).tracing() == old(self).tracing(),
            ({
                let st = old(self).stack_seq();
                if st.len() < 2 {
                    r == Err::<Step<V>, Fault>(Fault::StackUnderflow) && final(self).stack_seq()
                        == st
                } else {
                    r == Ok::<Step<V>, Fault>(Step::Binary(op, st[st.len() - 2], st[st.len() - 1]))
                        && final(self).stack_seq() == st.drop_last().drop_last()
                }
            }),
    {
        if self.stack.len() < 2 {
            return Err(Fault::StackUnderflow);
        }
        let right = self.pop()?;
        let left = self.pop()?;
        Ok(Step::Binary(op, left, right))
    }

    /// Reads the operand byte at the cursor as a pool index, moves past it,
    /// and gives the constant.
    pub fn read_constant(&mut self) -> (r: Result<V, Fault>)
        requires
            old(self).inv(),
        ensures
            final(self).inv(),
            final(self).source() == old(self).source(),
            final(self).stack_seq() == old(self).stack_seq(),
            final(self).tracing() == old(self).tracing(),
            ({
                let code = old(self).source().code_seq();
                let constants = old(self).source().constants_seq();
                let ip = old(self).cursor();
                if ip >= code.len() {
                    r == Err::<V, Fault>(Fault::MissingOperand) && final(self).cursor() == ip
                } else if code[ip as int] >= constants.len() {
                    r == Err::<V, Fault>(Fault::ConstantOutOfRange(code[ip as int]))
                        && final(self).cursor() == ip
                } else {
                    r == Ok::<V, Fault>(constants[code[ip as int] as int]) && final(self).cursor()
                        == ip + 1
                }
            }),
    {
        let code = self.chunk.code();
        let constants = self.chunk.constants();
        if self.ip >= code.len() {
            return Err(Fault::MissingOperand);
        }
        let idx = code[self.ip];
        if idx as usize >= constants.len() {
            return Err(Fault::ConstantOutOfRange(idx));
        }
        self.ip = self.ip + 1;
        Ok(constants[idx as usize])
    }

    /// The instruction at the cursor, as the disassembler shows it, for a
    /// trace of the run. The machine is not changed.
    pub fn current_instruction(&self) -> (r: Result<Instruction<V>, Fault>)
        requires
            self.source().wf(),
        ensures
            self.cursor() >= self.source().code_seq().len() ==> r == Err::<Instruction<V>, Fault>(
                Fault::CodeExhausted,
            ),
            self.cursor() < self.source().code_seq().len() ==> r == decode_at(
                self.source().code_seq(),
                self.source().constants_seq(),
                self.source().runs(),
                self.cursor(),
            ),
    {
        if self.ip >= self.chunk.code().len() {
            return Err(Fault::CodeExhausted);
        }
        let mut dis = Disassembler::new(self.chunk, "VM_DISASSEMBLER");
        dis.offset = self.ip;
        dis.disassemble_instruction()
    }

    /// Fetches, decodes and executes one instruction. Loading a constant
    /// pushes it; negation and the arithmetic operators pop their operands and
    /// hand them back, and the caller pushes the result; a return pops the
    /// result of the run. A fault leaves the machine as it was.
    pub fn step(&mut self) -> (r: Result<Step<V>, Fault>)
        requires
            old(self).inv(),
        ensures
            final(self).inv(),
            final(self).source() == old(self).source(),
            final(self).tracing() == old(self).tracing(),
            match step_spec(
                old(self).source().code_seq(),
                old(self).source().constants_seq(),
                old(self).cursor(),
                old(self).stack_seq(),
            ) {
                Ok((ip, stack, s)) => r == Ok::<Step<V>, Fault>(s) && final(self).cursor() == ip
                    && final(self).stack_seq() == stack,
                Err(e) => r == Err::<Step<V>, Fault>(e) && final(self).cursor() == old(self).cursor()
                    && final(self).stack_seq() == old(self).stack_seq(),
            },
            r is Ok ==> final(self).stack_seq().len() + owed(r->Ok_0) == old(self).stack_seq().len()
                + stack_effect(opcode_of(old(self).source().code_seq()[old(self).cursor() as int])->0),
    {
        let code = self.chunk.code();
        if self.ip >= code.len() {
            return Err(Fault::CodeExhausted);
        }
        let b = code[self.ip];
        let op = match Opcode::from_byte(b) {
            Some(op) => op,
            None => {
                return Err(Fault::UnknownOpcode(b));
            },
        };
        let depth = self.stack.len();
        match op {
            Opcode::OpReturn => {
                let v = self.pop()?;
                self.ip = self.ip + 1;
                Ok(Step::Return(v))
            },
            Opcode::OpConstant | Opcode::OpConstantLong => {
                if self.ip + 1 >= code.len() {
                    return Err(Fault::MissingOperand);
                }
                let idx = code[self.ip + 1];
                if idx as usize >= self.chunk.constants().len() {
                    return Err(Fault::ConstantOutOfRange(idx));
                }
                if depth >= STACK_MAX {
                    return Err(Fault::StackOverflow);
                }
                self.ip = self.ip + 1;
                let constant = self.read_constant()?;
                self.push(constant)?;
                Ok(Step::Continue)
            },
            Opcode::OpNegate => {
                let v = self.pop()?;
                self.ip = self.ip + 1;
                Ok(Step::Negate(v))
            },
            _ => {
                let bop = match op {
                    Opcode::OpAdd => BinaryOp::Add,
                    Opcode::OpSubtract => BinaryOp::Subtract,
                    Opcode::OpMultiply => BinaryOp::Multiply,
                    _ => BinaryOp::Divide,
                };
                let r = self.do_binary_op(bop)?;
                self.ip = self.ip + 1;
                Ok(r)
            },
        }
    }
}

} // verus!
