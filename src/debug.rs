//! Disassembly of a chunk into one record, and one line of text, per
//! instruction.
use vstd::prelude::*;
use vstd::string::StringExecFns;
use crate::chunk::{byte_of, line_at, opcode_of, Chunk, LineEncoding, Opcode};
use crate::fault::Fault;
use crate::text::{
    decimal, decimal_string, pad_left, pad_left_string, pad_right, pad_right_string,
    signed_decimal, signed_decimal_string,
};

verus! {

/// Whether an opcode is followed by a constant-pool index.
pub open spec fn carries_constant(op: Opcode) -> bool {
    op is OpConstant || op is OpConstantLong
}

/// Bytes taken by an instruction with this opcode.
pub open spec fn instr_width(op: Opcode) -> nat {
    if carries_constant(op) {
        2
    } else {
        1
    }
}

/// The name printed for an opcode.
pub open spec fn mnemonic_spec(op: Opcode) -> Seq<char> {
    match op {
        Opcode::OpReturn => "OP_RETURN"@,
        Opcode::OpConstant => "OP_CONSTANT"@,
        Opcode::OpConstantLong => "OP_CONSTANT_LONG"@,
        Opcode::OpNegate => "OP_NEGATE"@,
        Opcode::OpAdd => "OP_ADD"@,
        Opcode::OpSubtract => "OP_SUBTRACT"@,
        Opcode::OpMultiply => "OP_MULTIPLY"@,
        Opcode::OpDivide => "OP_DIVIDE"@,
    }
}

pub fn mnemonic(op: Opcode) -> (r: &'static str)
    ensures
        r@ == mnemonic_spec(op),
{
    match op {
        Opcode::OpReturn => "OP_RETURN",
        Opcode::OpConstant => "OP_CONSTANT",
        Opcode::OpConstantLong => "OP_CONSTANT_LONG",
        Opcode::OpNegate => "OP_NEGATE",
        Opcode::OpAdd => "OP_ADD",
        Opcode::OpSubtract => "OP_SUBTRACT",
        Opcode::OpMultiply => "OP_MULTIPLY",
        Opcode::OpDivide => "OP_DIVIDE",
    }
}

/// One decoded instruction.
#[derive(Debug, PartialEq)]
pub struct Instruction<V> {
    /// Offset of the opcode byte.
    pub offset: usize,
    /// Source line of the opcode byte.
    pub line: i32,
    /// The byte before has the same source line.
    pub continues_line: bool,
    pub opcode: Opcode,
    /// Pool index and value, for a constant-loading opcode.
    pub constant: Option<(u8, V)>,
}

/// The instruction at `offset` of a code sequence, or the fault met there.
pub open spec fn decode_at<V>(
    code: Seq<u8>,
    constants: Seq<V>,
    runs: Seq<LineEncoding>,
    offset: nat,
) -> Result<Instruction<V>, Fault> {
    let b = code[offset as int];
    let line = line_at(runs, offset);
    let continues_line = offset > 0 && line == line_at(runs, (offset - 1) as nat);
    match opcode_of(b) {
        None => Err(Fault::UnknownOpcode(b)),
        Some(op) => if !carries_constant(op) {
            Ok(Instruction { offset: offset as usize, line, continues_line, opcode: op, constant: None })
        } else if offset + 1 >= code.len() {
            Err(Fault::MissingOperand)
        } else if code[offset + 1int] >= constants.len() {
            Err(Fault::ConstantOutOfRange(code[offset + 1int]))
        } else {
            let idx = code[offset + 1int];
            Ok(
                Instruction {
                    offset: offset as usize,
                    line,
                    continues_line,
                    opcode: op,
                    constant: Some((idx, constants[idx as int])),
                },
            )
        },
    }
}

/// `xs` before the instructions of `r`, or the fault of `r`.
pub open spec fn prepend<V>(xs: Seq<Instruction<V>>, r: Result<Seq<Instruction<V>>, Fault>) -> Result<
    Seq<Instruction<V>>,
    Fault,
> {
    match r {
        Ok(s) => Ok(xs + s),
        Err(e) => Err(e),
    }
}

/// The instructions from `offset` to the end of the code, or the first fault.
pub open spec fn decode_from<V>(
    code: Seq<u8>,
    constants: Seq<V>,
    runs: Seq<LineEncoding>,
    offset: nat,
) -> Result<Seq<Instruction<V>>, Fault>
    decreases code.len() - offset,
{
    if offset >= code.len() {
        Ok(Seq::empty())
    } else {
        match decode_at(code, constants, runs, offset) {
            Err(e) => Err(e),
            Ok(ins) => prepend(
                seq![ins],
                decode_from(code, constants, runs, offset + instr_width(ins.opcode)),
            ),
        }
    }
}

/// The line column: the source line right-aligned in four places and a space,
/// or a continuation mark.
pub open spec fn line_column(line: i32, continues_line: bool) -> Seq<char> {
    if continues_line {
        "   | "@
    } else {
        pad_left(signed_decimal(line as int), 4, ' ') + " "@
    }
}

/// The text after the line column.
pub open spec fn body_text<V>(opcode: Opcode, constant: Option<(u8, V)>, value_text: Seq<char>) -> Seq<
    char,
> {
    match constant {
        None => mnemonic_spec(opcode),
        Some((idx, _)) => pad_right(mnemonic_spec(opcode), 16) + " "@ + pad_left(
            decimal(idx as nat),
            4,
            ' ',
        ) + " '"@ + value_text + "'"@,
    }
}

/// The text of one disassembled instruction, `value_text` being the text of
/// its constant.
pub open spec fn render_spec<V>(ins: Instruction<V>, value_text: Seq<char>) -> Seq<char> {
    pad_left(decimal(ins.offset as nat), 4, '0') + " "@ + line_column(ins.line, ins.continues_line)
        + body_text(ins.opcode, ins.constant, value_text)
}

impl<V: Copy> Instruction<V> {
    /// One line of text: zero-padded offset, source line or a continuation
    /// mark, mnemonic, and for a constant its index and `value_text`.
    pub fn render(&self, value_text: &str) -> (r: String)
        ensures
            r@ == render_spec(*self, value_text@),
    {
        proof {
            reveal_strlit("0");
            reveal_strlit(" ");
        }
        let head = pad_left_string(decimal_string(self.offset as u64), 4, "0").concat(" ");
        let line_col = render_line_column(self.line, self.continues_line);
        let body = render_body(self.opcode, self.constant, value_text);
        head.concat(line_col.as_str()).concat(body.as_str())
    }
}

fn render_line_column(line: i32, continues_line: bool) -> (r: String)
    ensures
        r@ == line_column(line, continues_line),
{
    proof {
        reveal_strlit(" ");
        reveal_strlit("   | ");
    }
    if continues_line {
        String::from_str("   | ")
    } else {
        pad_left_string(signed_decimal_string(line as i64), 4, " ").concat(" ")
    }
}

fn render_body<V: Copy>(opcode: Opcode, constant: Option<(u8, V)>, value_text: &str) -> (r: String)
    ensures
        r@ == body_text(opcode, constant, value_text@),
{
    proof {
        reveal_strlit(" ");
        reveal_strlit(" '");
        reveal_strlit("'");
    }
    let name = mnemonic(opcode);
    match constant {
        None => String::from_str(name),
        Some((idx, _)) => {
            let padded = pad_right_string(String::from_str(name), 16);
            let index = pad_left_string(decimal_string(idx as u64), 4, " ");
            padded.concat(" ").concat(index.as_str()).concat(" '").concat(value_text).concat("'")
        },
    }
}

/// The bytes of one instruction: the opcode, then the pool index for an
/// opcode that loads a constant.
pub open spec fn encode_instr(op: Opcode, idx: u8) -> Seq<u8> {
    if carries_constant(op) {
        seq![byte_of(op), idx]
    } else {
        seq![byte_of(op)]
    }
}

/// The bytes of a sequence of instructions, one after another.
pub open spec fn encode_all(instrs: Seq<(Opcode, u8)>) -> Seq<u8>
    decreases instrs.len(),
{
    if instrs.len() == 0 {
        Seq::empty()
    } else {
        encode_instr(instrs[0].0, instrs[0].1) + encode_all(instrs.skip(1))
    }
}

/// Every constant index of the instructions lies in a pool of `n` values.
pub open spec fn indices_below(instrs: Seq<(Opcode, u8)>, n: nat) -> bool {
    forall|i: int|
        0 <= i < instrs.len() && carries_constant(#[trigger] instrs[i].0) ==> (instrs[i].1 as nat)
            < n
}

/// What disassembly reports for instruction `i` of `instrs`, its code
/// starting at `base`.
pub open spec fn reports<V>(
    ins: Instruction<V>,
    instrs: Seq<(Opcode, u8)>,
    i: int,
    base: nat,
    constants: Seq<V>,
    runs: Seq<LineEncoding>,
) -> bool {
    let at = base + encode_all(instrs.take(i)).len();
    &&& ins.offset == at
    &&& ins.opcode == instrs[i].0
    &&& ins.line == line_at(runs, at)
    &&& ins.continues_line == (at > 0 && line_at(runs, at) == line_at(runs, (at - 1) as nat))
    &&& ins.constant == if carries_constant(instrs[i].0) {
        Some((instrs[i].1, constants[instrs[i].1 as int]))
    } else {
        None
    }
}

proof fn lemma_encode_all_take(instrs: Seq<(Opcode, u8)>, i: int)
    requires
        0 < i <= instrs.len(),
    ensures
        encode_all(instrs.take(i)) == encode_instr(instrs[0].0, instrs[0].1) + encode_all(
            instrs.skip(1).take(i - 1),
        ),
{
    assert(instrs.take(i).skip(1) =~= instrs.skip(1).take(i - 1));
}

proof fn lemma_decode_encoded<V>(
    prefix: Seq<u8>,
    instrs: Seq<(Opcode, u8)>,
    constants: Seq<V>,
    runs: Seq<LineEncoding>,
)
    requires
        indices_below(instrs, constants.len()),
        prefix.len() + encode_all(instrs).len() <= usize::MAX,
    ensures
        decode_from(prefix + encode_all(instrs), constants, runs, prefix.len()) matches Ok(s) && s.len()
            == instrs.len() && forall|i: int|
            0 <= i < instrs.len() ==> reports(
                #[trigger] s[i],
                instrs,
                i,
                prefix.len(),
                constants,
                runs,
            ),
    decreases instrs.len(),
{
    let code = prefix + encode_all(instrs);
    if instrs.len() == 0 {
        assert(code.len() == prefix.len());
    } else {
        let (op, idx) = instrs[0];
        let e = encode_instr(op, idx);
        let rest = instrs.skip(1);
        let prefix2 = prefix + e;
        assert(code =~= prefix2 + encode_all(rest));
        assert(indices_below(rest, constants.len())) by {
            assert forall|i: int|
                0 <= i < rest.len() && carries_constant(#[trigger] rest[i].0) implies (
            rest[i].1 as nat) < constants.len() by {
                assert(rest[i] == instrs[i + 1]);
            }
        }
        assert(carries_constant(op) ==> (instrs[0].1 as nat) < constants.len());
        assert(code[prefix.len() as int] == byte_of(op));
        if carries_constant(op) {
            assert(code[prefix.len() + 1int] == idx);
        }
        lemma_decode_encoded(prefix2, rest, constants, runs);
        let ins = decode_at(code, constants, runs, prefix.len()) -> Ok_0;
        let tail = decode_from(code, constants, runs, prefix2.len()) -> Ok_0;
        let s = decode_from(code, constants, runs, prefix.len()) -> Ok_0;
        assert(s == seq![ins] + tail);
        assert forall|i: int| 0 <= i < instrs.len() implies reports(
            #[trigger] s[i],
            instrs,
            i,
            prefix.len(),
            constants,
            runs,
        ) by {
            if i == 0 {
                assert(instrs.take(0) =~= Seq::<(Opcode, u8)>::empty());
            } else {
                assert(s[i] == tail[i - 1]);
                assert(reports(tail[i - 1], rest, i - 1, prefix2.len(), constants, runs));
                lemma_encode_all_take(instrs, i);
                assert(rest[i - 1] == instrs[i]);
            }
        }
    }
}

/// Disassembling a chunk whose code is the encoding of `instrs` gives one
/// instruction for each of them, in order, with its opcode, its constant, its
/// offset, the source line of that offset and whether the byte before has the
/// same line.
pub proof fn lemma_disassemble_known<V>(chunk: Chunk<V>, instrs: Seq<(Opcode, u8)>)
    requires
        chunk.wf(),
        chunk.code_seq() == encode_all(instrs),
        indices_below(instrs, chunk.constants_seq().len()),
    ensures
        decode_from(chunk.code_seq(), chunk.constants_seq(), chunk.runs(), 0) matches Ok(s) && s.len()
            == instrs.len() && forall|i: int|
            0 <= i < instrs.len() ==> reports(
                #[trigger] s[i],
                instrs,
                i,
                0,
                chunk.constants_seq(),
                chunk.runs(),
            ),
{
    let empty = Seq::<u8>::empty();
    assert(empty + encode_all(instrs) =~= encode_all(instrs));
    lemma_decode_encoded(empty, instrs, chunk.constants_seq(), chunk.runs());
}

/// Walks a chunk's code from an offset, one instruction at a time.
pub struct Disassembler<'a, V> {
    pub chunk: &'a Chunk<V>,
    pub name: &'a str,
    /// Offset of the next instruction.
    pub offset: usize,
}

impl<'a, V: Copy> Disassembler<'a, V> {
    /// The instructions from the current offset to the end, or the first
    /// fault.
    pub open spec fn remaining(&self) -> Result<Seq<Instruction<V>>, Fault> {
        decode_from(
            self.chunk.code_seq(),
            self.chunk.constants_seq(),
            self.chunk.runs(),
            self.offset as nat,
        )
    }

    pub fn new(chunk: &'a Chunk<V>, name: &'a str) -> (r: Disassembler<'a, V>)
        ensures
            r.chunk == chunk,
            r.name == name,
            r.offset == 0,
    {
        Disassembler { chunk, name, offset: 0 }
    }

    /// The title line, `== name ==`.
    pub fn header(&self) -> (r: String)
        ensures
            r@ == "== "@ + self.name@ + " =="@,
    {
        String::from_str("== ").concat(self.name).concat(" ==")
    }

    /// Decodes the instruction at the current offset and moves past it: one
    /// byte for a simple instruction, two for one that loads a constant. On a
    /// fault the offset stays.
    pub fn disassemble_instruction(&mut self) -> (r: Result<Instruction<V>, Fault>)
        requires
            old(self).chunk.wf(),
            old(self).offset < old(self).chunk.code_seq().len(),
        ensures
            final(self).chunk == old(self).chunk,
            final(self).name == old(self).name,
            r == decode_at(
                old(self).chunk.code_seq(),
                old(self).chunk.constants_seq(),
                old(self).chunk.runs(),
                old(self).offset as nat,
            ),
            r is Ok ==> final(self).offset == old(self).offset + instr_width(r->Ok_0.opcode),
            r is Err ==> final(self).offset == old(self).offset,
    {
        let code = self.chunk.code();
        let lines = self.chunk.lines();
        let offset = self.offset;
        let b = code[offset];
        let line = Chunk::<V>::get_line(offset, lines);
        let continues_line = offset > 0 && line == Chunk::<V>::get_line(offset - 1, lines);
        match Opcode::from_byte(b) {
            None => Err(Fault::UnknownOpcode(b)),
            Some(op) => {
                if op == Opcode::OpConstant || op == Opcode::OpConstantLong {
                    self.constant_instruction(op, line, continues_line)
                } else {
                    Ok(self.simple_instruction(op, line, continues_line))
                }
            },
        }
    }

    fn simple_instruction(&mut self, op: Opcode, line: i32, continues_line: bool) -> (r:
        Instruction<V>)
        requires
            old(self).chunk.wf(),
            old(self).offset < old(self).chunk.code_seq().len(),
        ensures
            final(self).chunk == old(self).chunk,
            final(self).name == old(self).name,
            final(self).offset == old(self).offset + 1,
            r == (Instruction::<V> {
                offset: old(self).offset,
                line,
                continues_line,
                opcode: op,
                constant: None,
            }),
    {
        let ins = Instruction { offset: self.offset, line, continues_line, opcode: op, constant: None };
        self.offset = self.offset + 1;
        ins
    }

    fn constant_instruction(&mut self, op: Opcode, line: i32, continues_line: bool) -> (r: Result<
        Instruction<V>,
        Fault,
    >)
        requires
            old(self).offset < old(self).chunk.code_seq().len(),
        ensures
            final(self).chunk == old(self).chunk,
            final(self).name == old(self).name,
            ({
                let code = old(self).chunk.code_seq();
                let constants = old(self).chunk.constants_seq();
                let at = old(self).offset as nat;
                if at + 1 >= code.len() {
                    r == Err::<Instruction<V>, Fault>(Fault::MissingOperand)
                } else if code[at + 1int] >= constants.len() {
                    r == Err::<Instruction<V>, Fault>(Fault::ConstantOutOfRange(code[at + 1int]))
                } else {
                    r == Ok::<Instruction<V>, Fault>(
                        Instruction {
                            offset: at as usize,
                            line,
                            continues_line,
                            opcode: op,
                            constant: Some((code[at + 1int], constants[code[at + 1int] as int])),
                        },
                    )
                }
            }),
            r is Ok ==> final(self).offset == old(self).offset + 2,
            r is Err ==> final(self).offset == old(self).offset,
    {
        let code = self.chunk.code();
        let constants = self.chunk.constants();
        if self.offset >= code.len() - 1 {
            return Err(Fault::MissingOperand);
        }
        let idx = code[self.offset + 1];
        if idx as usize >= constants.len() {
            return Err(Fault::ConstantOutOfRange(idx));
        }
        let ins = Instruction {
            offset: self.offset,
            line,
            continues_line,
            opcode: op,
            constant: Some((idx, constants[idx as usize])),
        };
        self.offset = self.offset + 2;
        Ok(ins)
    }

    /// Decodes every instruction from the current offset to the end of the
    /// code, stopping at the first fault.
    pub fn disassemble_chunk(&mut self) -> (r: Result<Vec<Instruction<V>>, Fault>)
        requires
            old(self).chunk.wf(),
        ensures
            final(self).chunk == old(self).chunk,
            final(self).name == old(self).name,
            match r {
                Ok(v) => old(self).remaining() == Ok::<Seq<Instruction<V>>, Fault>(v@),
                Err(e) => old(self).remaining() == Err::<Seq<Instruction<V>>, Fault>(e),
            },
    {
        let mut out: Vec<Instruction<V>> = Vec::new();
        let len = self.chunk.code().len();
        while self.offset < len
            invariant
                self.chunk == old(self).chunk,
                self.name == old(self).name,
                self.chunk.wf(),
                len == self.chunk.code_seq().len(),
                old(self).remaining() == prepend(out@, self.remaining()),
            decreases len - self.offset,
        {
            let ghost before = self.remaining();
            let ghost seen = out@;
            match self.disassemble_instruction() {
                Ok(ins) => {
                    proof {
                        assert(before == prepend(seq![ins], self.remaining()));
                        match self.remaining() {
                            Ok(rest) => {
                                assert(seen + (seq![ins] + rest) =~= seen.push(ins) + rest);
                            },
                            Err(_) => {},
                        }
                    }
                    out.push(ins);
                },
                Err(e) => {
                    return Err(e);
                },
            }
        }
        proof {
            assert(out@ + Seq::<Instruction<V>>::empty() =~= out@);
        }
        Ok(out)
    }
}

} // verus!
