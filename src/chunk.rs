//! Bytecode buffer, constant pool and run-length line map.
use vstd::prelude::*;

verus! {

/// One instruction tag; each has a fixed byte in the encoding.
#[derive(Clone, Copy, Debug, PartialEq, Eq, Structural)]
pub enum Opcode {
    OpReturn,
    OpConstant,
    OpConstantLong,
    OpNegate,
    OpAdd,
    OpSubtract,
    OpMultiply,
    OpDivide,
}

/// The byte that encodes an opcode.
pub open spec fn byte_of(op: Opcode) -> u8 {
    match op {
        Opcode::OpReturn => 0,
        Opcode::OpConstant => 1,
        Opcode::OpConstantLong => 2,
        Opcode::OpNegate => 3,
        Opcode::OpAdd => 4,
        Opcode::OpSubtract => 5,
        Opcode::OpMultiply => 6,
        Opcode::OpDivide => 7,
    }
}

/// The opcode that a byte encodes, if any.
pub open spec fn opcode_of(b: u8) -> Option<Opcode> {
    if b == 0 {
        Some(Opcode::OpReturn)
    } else if b == 1 {
        Some(Opcode::OpConstant)
    } else if b == 2 {
        Some(Opcode::OpConstantLong)
    } else if b == 3 {
        Some(Opcode::OpNegate)
    } else if b == 4 {
        Some(Opcode::OpAdd)
    } else if b == 5 {
        Some(Opcode::OpSubtract)
    } else if b == 6 {
        Some(Opcode::OpMultiply)
    } else if b == 7 {
        Some(Opcode::OpDivide)
    } else {
        None
    }
}

impl Opcode {
    pub fn to_byte(self) -> (r: u8)
        ensures
            r == byte_of(self),
    {
        match self {
            Opcode::OpReturn => 0,
            Opcode::OpConstant => 1,
            Opcode::OpConstantLong => 2,
            Opcode::OpNegate => 3,
            Opcode::OpAdd => 4,
            Opcode::OpSubtract => 5,
            Opcode::OpMultiply => 6,
            Opcode::OpDivide => 7,
        }
    }

    /// Decodes a byte; `None` for a byte outside the instruction set.
    pub fn from_byte(b: u8) -> (r: Option<Opcode>)
        ensures
            r == opcode_of(b),
    {
        match b {
            0 => Some(Opcode::OpReturn),
            1 => Some(Opcode::OpConstant),
            2 => Some(Opcode::OpConstantLong),
            3 => Some(Opcode::OpNegate),
            4 => Some(Opcode::OpAdd),
            5 => Some(Opcode::OpSubtract),
            6 => Some(Opcode::OpMultiply),
            7 => Some(Opcode::OpDivide),
            _ => None,
        }
    }
}

/// Decoding the byte of an opcode gives that opcode back, and every byte that
/// decodes is the byte of what it decodes to.
pub proof fn lemma_opcode_byte_round_trip(op: Opcode, b: u8)
    ensures
        opcode_of(byte_of(op)) == Some(op),
        opcode_of(b) is Some ==> byte_of(opcode_of(b)->0) == b,
        opcode_of(b) is Some <==> b < 8,
{
}

/// One run of the line map: `count` consecutive code bytes from source `line`.
#[derive(Clone, Copy, Debug, PartialEq, Eq, Structural)]
pub struct LineEncoding {
    pub count: usize,
    pub line: i32,
}

impl LineEncoding {
    pub fn new(line: i32) -> (r: LineEncoding)
        ensures
            r.count == 1,
            r.line == line,
    {
        LineEncoding { count: 1, line }
    }
}

/// Number of code bytes that the runs cover.
pub open spec fn total(runs: Seq<LineEncoding>) -> nat
    decreases runs.len(),
{
    if runs.len() == 0 {
        0
    } else {
        total(runs.drop_last()) + runs.last().count as nat
    }
}

/// The source line of the byte at `offset`, for `offset < total(runs)`.
pub open spec fn line_at(runs: Seq<LineEncoding>, offset: nat) -> i32
    decreases runs.len(),
{
    if runs.len() == 0 {
        0
    } else if offset < total(runs.drop_last()) {
        line_at(runs.drop_last(), offset)
    } else {
        runs.last().line
    }
}

/// Runs are non-empty, and two neighbouring runs have different lines.
pub open spec fn runs_wf(runs: Seq<LineEncoding>) -> bool {
    &&& forall|i: int| 0 <= i < runs.len() ==> #[trigger] runs[i].count >= 1
    &&& forall|i: int| 0 < i < runs.len() ==> #[trigger] runs[i].line != runs[i - 1].line
}

/// The line map after one more byte from `line`.
pub open spec fn runs_after_write(runs: Seq<LineEncoding>, line: i32) -> Seq<LineEncoding> {
    if runs.len() > 0 && runs.last().line == line {
        runs.update(runs.len() - 1, LineEncoding { count: (runs.last().count + 1) as usize, line })
    } else {
        runs.push(LineEncoding { count: 1, line })
    }
}

/// The line map after `k` more bytes, all from `line`.
pub open spec fn runs_after_writes(runs: Seq<LineEncoding>, line: i32, k: nat) -> Seq<LineEncoding>
    decreases k,
{
    if k == 0 {
        runs
    } else {
        runs_after_write(runs_after_writes(runs, line, (k - 1) as nat), line)
    }
}

/// Runs before `i` cover no more bytes than runs before `j`, for `i <= j`.
pub proof fn lemma_total_prefix_mono(runs: Seq<LineEncoding>, i: int, j: int)
    requires
        0 <= i <= j <= runs.len(),
    ensures
        total(runs.take(i)) <= total(runs.take(j)),
    decreases j - i,
{
    if i < j {
        lemma_total_prefix_mono(runs, i, j - 1);
        assert(runs.take(j).drop_last() =~= runs.take(j - 1));
    }
}

/// The byte at `offset` lies in run `i` when the runs before `i` cover no more
/// than `offset` bytes and the runs up to `i` cover more.
pub proof fn lemma_line_at_run(runs: Seq<LineEncoding>, i: int, offset: nat)
    requires
        0 <= i < runs.len(),
        total(runs.take(i)) <= offset < total(runs.take(i + 1)),
    ensures
        line_at(runs, offset) == runs[i].line,
    decreases runs.len(),
{
    assert(runs.take(runs.len() as int) =~= runs);
    if i + 1 < runs.len() {
        let r = runs.drop_last();
        assert(r.take(i) =~= runs.take(i));
        assert(r.take(i + 1) =~= runs.take(i + 1));
        lemma_total_prefix_mono(runs, i + 1, runs.len() - 1);
        assert(runs.take(runs.len() - 1) =~= r);
        lemma_line_at_run(r, i, offset);
    } else {
        assert(runs.take(i) =~= runs.drop_last());
    }
}

/// One more byte adds one to the bytes covered and keeps the line of every
/// earlier byte; the new byte has the new line.
pub proof fn lemma_write_one(runs: Seq<LineEncoding>, line: i32, offset: nat)
    requires
        runs.len() > 0 ==> runs.last().count + 1 <= usize::MAX,
    ensures
        total(runs_after_write(runs, line)) == total(runs) + 1,
        offset < total(runs) ==> line_at(runs_after_write(runs, line), offset) == line_at(
            runs,
            offset,
        ),
        line_at(runs_after_write(runs, line), total(runs)) == line,
{
    let r2 = runs_after_write(runs, line);
    if runs.len() > 0 && runs.last().line == line {
        assert(r2.drop_last() =~= runs.drop_last());
    } else {
        assert(r2.drop_last() =~= runs);
    }
}

/// Bytes written one after another from one line: every byte of that stretch
/// resolves to the line, earlier bytes keep theirs, and the map covers exactly
/// the bytes written.
pub proof fn lemma_same_line_writes(runs: Seq<LineEncoding>, line: i32, k: nat, offset: nat)
    requires
        total(runs) + k <= usize::MAX,
        forall|i: int| 0 <= i < runs.len() ==> #[trigger] runs[i].count <= total(runs),
    ensures
        total(runs_after_writes(runs, line, k)) == total(runs) + k,
        total(runs) <= offset < total(runs) + k ==> line_at(runs_after_writes(runs, line, k), offset)
            == line,
        offset < total(runs) ==> line_at(runs_after_writes(runs, line, k), offset) == line_at(
            runs,
            offset,
        ),
    decreases k,
{
    if k > 0 {
        let prev = runs_after_writes(runs, line, (k - 1) as nat);
        lemma_same_line_writes(runs, line, (k - 1) as nat, offset);
        lemma_runs_after_writes_count(runs, line, (k - 1) as nat);
        lemma_write_one(prev, line, offset);
    }
}

/// After `k` same-line bytes no run covers more than all bytes.
proof fn lemma_runs_after_writes_count(runs: Seq<LineEncoding>, line: i32, k: nat)
    requires
        total(runs) + k <= usize::MAX,
        forall|i: int| 0 <= i < runs.len() ==> #[trigger] runs[i].count <= total(runs),
    ensures
        total(runs_after_writes(runs, line, k)) == total(runs) + k,
        forall|i: int|
            0 <= i < runs_after_writes(runs, line, k).len() ==> #[trigger] runs_after_writes(
                runs,
                line,
                k,
            )[i].count <= total(runs) + k,
    decreases k,
{
    if k > 0 {
        let prev = runs_after_writes(runs, line, (k - 1) as nat);
        lemma_runs_after_writes_count(runs, line, (k - 1) as nat);
        if prev.len() > 0 {
            assert(prev[prev.len() - 1].count <= total(runs) + k - 1);
        }
        lemma_write_one(prev, line, 0);
    }
}

/// Appendable bytecode, its constant pool and its line map.
pub struct Chunk<V> {
    code: Vec<u8>,
    constants: Vec<V>,
    lines: Vec<LineEncoding>,
}

impl<V> Chunk<V> {
    /// The code bytes.
    pub closed spec fn code_seq(&self) -> Seq<u8> {
        self.code@
    }

    /// The constant pool.
    pub closed spec fn constants_seq(&self) -> Seq<V> {
        self.constants@
    }

    /// The runs of the line map.
    pub closed spec fn runs(&self) -> Seq<LineEncoding> {
        self.lines@
    }

    /// The runs are well formed, no run covers more than all bytes, the runs
    /// cover exactly the code bytes, and the code fits in memory.
    pub open spec fn wf(&self) -> bool {
        &&& self.code_seq().len() <= usize::MAX
        &&& runs_wf(self.runs())
        &&& forall|i: int|
            0 <= i < self.runs().len() ==> #[trigger] self.runs()[i].count <= self.code_seq().len()
        &&& total(self.runs()) == self.code_seq().len()
    }

    /// The source line of the code byte at `offset`.
    pub open spec fn line_of(&self, offset: nat) -> i32 {
        line_at(self.runs(), offset)
    }

    pub fn new() -> (r: Chunk<V>)
        ensures
            r.wf(),
            r.code_seq().len() == 0,
            r.constants_seq().len() == 0,
            r.runs().len() == 0,
    {
        Chunk { code: Vec::new(), constants: Vec::new(), lines: Vec::new() }
    }

    pub fn code(&self) -> (r: &Vec<u8>)
        ensures
            r@ == self.code_seq(),
    {
        &self.code
    }

    pub fn constants(&self) -> (r: &Vec<V>)
        ensures
            r@ == self.constants_seq(),
    {
        &self.constants
    }

    pub fn lines(&self) -> (r: &Vec<LineEncoding>)
        ensures
            r@ == self.runs(),
    {
        &self.lines
    }

    /// Appends one byte from source `line`: the last run grows by one when it
    /// has that line, else a run of one starts.
    pub fn write_chunk(chunk: &mut Chunk<V>, byte: u8, line: i32)
        requires
            old(chunk).wf(),
        ensures
            final(chunk).wf(),
            final(chunk).code_seq() == old(chunk).code_seq().push(byte),
            final(chunk).constants_seq() == old(chunk).constants_seq(),
            final(chunk).runs() == runs_after_write(old(chunk).runs(), line),
    {
        let ghost old_runs = chunk.lines@;
        chunk.code.push(byte);
        let code_len = chunk.code.len();
        let n = chunk.lines.len();
        if n > 0 && chunk.lines[n - 1].line == line {
            let prev = chunk.lines[n - 1];
            assert(prev.count < code_len);
            chunk.lines.set(n - 1, LineEncoding { count: prev.count + 1, line });
        } else {
            chunk.lines.push(LineEncoding::new(line));
        }
        proof {
            lemma_write_one(old_runs, line, 0);
            assert(chunk.lines@ =~= runs_after_write(old_runs, line));
        }
    }

    /// Appends a value to the pool and returns its index.
    pub fn add_constant(chunk: &mut Chunk<V>, value: V) -> (r: u8)
        requires
            old(chunk).constants_seq().len() < 255,
        ensures
            r == old(chunk).constants_seq().len(),
            final(chunk).constants_seq() == old(chunk).constants_seq().push(value),
            final(chunk).code_seq() == old(chunk).code_seq(),
            final(chunk).runs() == old(chunk).runs(),
    {
        chunk.constants.push(value);
        (chunk.constants.len() - 1) as u8
    }

    /// Appends a value to the pool and writes the load opcode for it: the long
    /// form once the pool holds more than 255 values, else the short form.
    /// Only the opcode is written; the operand width of the long form is not
    /// settled yet.
    pub fn write_constant(chunk: &mut Chunk<V>, value: V, line: i32)
        requires
            old(chunk).wf(),
        ensures
            final(chunk).wf(),
            final(chunk).constants_seq() == old(chunk).constants_seq().push(value),
            final(chunk).code_seq() == old(chunk).code_seq().push(
                byte_of(load_opcode(final(chunk).constants_seq().len())),
            ),
            final(chunk).runs() == runs_after_write(old(chunk).runs(), line),
    {
        chunk.constants.push(value);
        let opcode = if chunk.constants.len() > 255 {
            Opcode::OpConstantLong
        } else {
            Opcode::OpConstant
        };
        Chunk::write_chunk(chunk, opcode.to_byte(), line);
    }

    /// The source line of the code byte at `index`, found by walking the runs.
    pub fn get_line(index: usize, lines: &Vec<LineEncoding>) -> (r: i32)
        requires
            index < total(lines@),
        ensures
            r == line_at(lines@, index as nat),
    {
        let mut acc: usize = 0;
        let mut i: usize = 0;
        while i < lines.len()
            invariant
                i <= lines@.len(),
                acc == total(lines@.take(i as int)),
                acc <= index,
                index < total(lines@),
            decreases lines@.len() - i,
        {
            let run = lines[i];
            proof {
                assert(lines@.take(i + 1).drop_last() =~= lines@.take(i as int));
            }
            if index - acc < run.count {
                proof {
                    lemma_line_at_run(lines@, i as int, index as nat);
                }
                return run.line;
            }
            acc = acc + run.count;
            i = i + 1;
        }
        proof {
            assert(lines@.take(lines@.len() as int) =~= lines@);
        }
        0
    }
}

/// The load opcode for a pool of `pool_len` values.
pub open spec fn load_opcode(pool_len: nat) -> Opcode {
    if pool_len > 255 {
        Opcode::OpConstantLong
    } else {
        Opcode::OpConstant
    }
}

} // verus!
