//! Bytecode chunks: the opcode stream, the constant pool (at most 256
//! entries, addressed by one byte), and the run-length-encoded line table.
use vstd::prelude::*;

use crate::value::Value;

verus! {

/// One run of the line table: a line number and how many consecutive code
/// bytes were recorded at that line.
pub type LineRun = (u32, u32);

/// The sequence of code bytes a run stands for: its line number repeated.
pub open spec fn run_lines(cell: LineRun) -> Seq<u32> {
    Seq::new(cell.1 as nat, |i: int| cell.0)
}

/// The per-byte line mapping that a sequence of runs encodes.
pub open spec fn flatten_runs(cells: Seq<LineRun>) -> Seq<u32>
    decreases cells.len(),
{
    if cells.len() == 0 {
        Seq::empty()
    } else {
        run_lines(cells[0]) + flatten_runs(cells.drop_first())
    }
}

proof fn lemma_flatten_runs_push(cells: Seq<LineRun>, cell: LineRun)
    ensures
        flatten_runs(cells.push(cell)) == flatten_runs(cells) + run_lines(cell),
    decreases cells.len(),
{
    if cells.len() == 0 {
        assert(cells.push(cell).drop_first() =~= Seq::<LineRun>::empty());
        assert(cells.push(cell)[0] == cell);
        assert(flatten_runs(cells.push(cell)) == run_lines(cell) + flatten_runs(
            Seq::<LineRun>::empty(),
        ));
        assert(flatten_runs(cells.push(cell)) =~= flatten_runs(cells) + run_lines(cell));
    } else {
        assert(cells.push(cell).drop_first() =~= cells.drop_first().push(cell));
        lemma_flatten_runs_push(cells.drop_first(), cell);
        assert(flatten_runs(cells.push(cell)) =~= flatten_runs(cells) + run_lines(cell));
    }
}

proof fn lemma_flatten_runs_skip(cells: Seq<LineRun>, k: int)
    requires
        0 <= k < cells.len(),
    ensures
        flatten_runs(cells.skip(k)) == run_lines(cells[k]) + flatten_runs(cells.skip(k + 1)),
{
    assert(cells.skip(k)[0] == cells[k]);
    assert(cells.skip(k).drop_first() =~= cells.skip(k + 1));
}

/// The run-length-encoded mapping from code byte offset to source line.
/// Its view is the flattened, per-byte sequence of line numbers.
#[derive(Debug)]
pub struct Lines {
    cells: Vec<LineRun>,
}

impl View for Lines {
    type V = Seq<u32>;

    closed spec fn view(&self) -> Seq<u32> {
        flatten_runs(self.cells@)
    }
}

impl Lines {
    /// An empty line table.
    pub fn new() -> (r: Lines)
        ensures
            r@ == Seq::<u32>::empty(),
    {
        Lines { cells: Vec::new() }
    }

    /// Records the line of one more code byte: when it equals the line of the
    /// last run, that run grows by one; otherwise a new run starts.
    pub fn add_line(&mut self, new_line: u32)
        ensures
            final(self)@ == old(self)@.push(new_line),
    {
        let n = self.cells.len();
        if n > 0 {
            let (line, count) = self.cells[n - 1];
            if line == new_line && count < u32::MAX {
                let ghost prefix = self.cells@.take(n - 1);
                self.cells[n - 1] = (line, count + 1);
                proof {
                    assert(old(self).cells@ =~= prefix.push((line, count)));
                    assert(self.cells@ =~= prefix.push((line, (count + 1) as u32)));
                    lemma_flatten_runs_push(prefix, (line, count));
                    lemma_flatten_runs_push(prefix, (line, (count + 1) as u32));
                    assert(run_lines((line, (count + 1) as u32)) =~= run_lines((line, count)).push(
                        new_line,
                    ));
                    assert(self@ =~= old(self)@.push(new_line));
                }
                return;
            }
        }
        self.cells.push((new_line, 1));
        proof {
            lemma_flatten_runs_push(old(self).cells@, (new_line, 1));
            assert(run_lines((new_line, 1)) =~= seq![new_line]);
            assert(self@ =~= old(self)@.push(new_line));
        }
    }

    /// The line number recorded for the code byte at `pos`, walking the runs;
    /// `None` when `pos` is past the last recorded byte.
    pub fn get_line(&self, pos: usize) -> (r: Option<u32>)
        ensures
            r == if pos < self@.len() {
                Some(self@[pos as int])
            } else {
                None::<u32>
            },
    {
        let mut k: usize = 0;
        let mut rem: usize = pos;
        let n = self.cells.len();
        proof {
            assert(self.cells@.skip(0) =~= self.cells@);
        }
        while k < n
            invariant
                k <= n,
                n == self.cells@.len(),
                self@ == flatten_runs(self.cells@.take(k as int)) + flatten_runs(
                    self.cells@.skip(k as int),
                ),
                flatten_runs(self.cells@.take(k as int)).len() + rem == pos,
                rem <= pos,
            decreases n - k,
        {
            let (line, count) = self.cells[k];
            proof {
                lemma_flatten_runs_skip(self.cells@, k as int);
            }
            if rem < count as usize {
                proof {
                    let pre = flatten_runs(self.cells@.take(k as int));
                    assert(self@[pos as int] == run_lines((line, count))[rem as int]);
                }
                return Some(line);
            }
            rem = rem - count as usize;
            proof {
                assert(self.cells@.take(k + 1 as int) =~= self.cells@.take(k as int).push(
                    self.cells@[k as int],
                ));
                lemma_flatten_runs_push(self.cells@.take(k as int), self.cells@[k as int]);
            }
            k = k + 1;
        }
        proof {
            assert(self.cells@.take(n as int) =~= self.cells@);
            assert(flatten_runs(self.cells@.skip(n as int)) =~= Seq::<u32>::empty());
            assert(self@.len() + rem == pos);
        }
        None
    }
}

/// One-byte operation codes of the virtual machine. Operand bytes, when an
/// instruction has them, immediately follow the opcode byte in the stream.
#[derive(Debug, Clone, Copy, PartialEq, Eq, Structural)]
pub enum OpCode {
    Return,
    Constant,
    Negate,
    Add,
    Subtract,
    Multiply,
    Divide,
    Nil,
    True,
    False,
    Not,
    Equal,
    Greater,
    Less,
    Print,
    Pop,
    DefineGlobal,
    GetGlobal,
    SetGlobal,
    GetLocal,
    SetLocal,
    JumpIfFalse,
    Jump,
    Loop,
    Call,
    Closure,
    GetUpvalue,
    SetUpvalue,
    CloseUpvalue,
    Class,
    GetProperty,
    SetProperty,
    Method,
    Invoke,
    Inherit,
    GetSuper,
    SuperInvoke,
}

/// The byte that encodes each opcode.
pub open spec fn op_code_byte(op: OpCode) -> u8 {
    match op {
        OpCode::Return => 0,
        OpCode::Constant => 1,
        OpCode::Negate => 2,
        OpCode::Add => 3,
        OpCode::Subtract => 4,
        OpCode::Multiply => 5,
        OpCode::Divide => 6,
        OpCode::Nil => 7,
        OpCode::True => 8,
        OpCode::False => 9,
        OpCode::Not => 10,
        OpCode::Equal => 11,
        OpCode::Greater => 12,
        OpCode::Less => 13,
        OpCode::Print => 14,
        OpCode::Pop => 15,
        OpCode::DefineGlobal => 16,
        OpCode::GetGlobal => 17,
        OpCode::SetGlobal => 18,
        OpCode::GetLocal => 19,
        OpCode::SetLocal => 20,
        OpCode::JumpIfFalse => 21,
        OpCode::Jump => 22,
        OpCode::Loop => 23,
        OpCode::Call => 24,
        OpCode::Closure => 25,
        OpCode::GetUpvalue => 26,
        OpCode::SetUpvalue => 27,
        OpCode::CloseUpvalue => 28,
        OpCode::Class => 29,
        OpCode::GetProperty => 30,
        OpCode::SetProperty => 31,
        OpCode::Method => 32,
        OpCode::Invoke => 33,
        OpCode::Inherit => 34,
        OpCode::GetSuper => 35,
        OpCode::SuperInvoke => 36,
    }
}

/// The opcode a byte decodes to, when it is in range.
pub open spec fn spec_op_from_byte(b: u8) -> Option<OpCode> {
    if b == 0 {
        Some(OpCode::Return)
    } else if b == 1 {
        Some(OpCode::Constant)
    } else if b == 2 {
        Some(OpCode::Negate)
    } else if b == 3 {
        Some(OpCode::Add)
    } else if b == 4 {
        Some(OpCode::Subtract)
    } else if b == 5 {
        Some(OpCode::Multiply)
    } else if b == 6 {
        Some(OpCode::Divide)
    } else if b == 7 {
        Some(OpCode::Nil)
    } else if b == 8 {
        Some(OpCode::True)
    } else if b == 9 {
        Some(OpCode::False)
    } else if b == 10 {
        Some(OpCode::Not)
    } else if b == 11 {
        Some(OpCode::Equal)
    } else if b == 12 {
        Some(OpCode::Greater)
    } else if b == 13 {
        Some(OpCode::Less)
    } else if b == 14 {
        Some(OpCode::Print)
    } else if b == 15 {
        Some(OpCode::Pop)
    } else if b == 16 {
        Some(OpCode::DefineGlobal)
    } else if b == 17 {
        Some(OpCode::GetGlobal)
    } else if b == 18 {
        Some(OpCode::SetGlobal)
    } else if b == 19 {
        Some(OpCode::GetLocal)
    } else if b == 20 {
        Some(OpCode::SetLocal)
    } else if b == 21 {
        Some(OpCode::JumpIfFalse)
    } else if b == 22 {
        Some(OpCode::Jump)
    } else if b == 23 {
        Some(OpCode::Loop)
    } else if b == 24 {
        Some(OpCode::Call)
    } else if b == 25 {
        Some(OpCode::Closure)
    } else if b == 26 {
        Some(OpCode::GetUpvalue)
    } else if b == 27 {
        Some(OpCode::SetUpvalue)
    } else if b == 28 {
        Some(OpCode::CloseUpvalue)
    } else if b == 29 {
        Some(OpCode::Class)
    } else if b == 30 {
        Some(OpCode::GetProperty)
    } else if b == 31 {
        Some(OpCode::SetProperty)
    } else if b == 32 {
        Some(OpCode::Method)
    } else if b == 33 {
        Some(OpCode::Invoke)
    } else if b == 34 {
        Some(OpCode::Inherit)
    } else if b == 35 {
        Some(OpCode::GetSuper)
    } else if b == 36 {
        Some(OpCode::SuperInvoke)
    } else {
        None
    }
}

/// How many operand bytes always follow the opcode byte. The `Closure`
/// instruction additionally carries one `(is_local, index)` pair per upvalue
/// of the wrapped function, which the decoder reads separately.
pub open spec fn spec_operand_width(op: OpCode) -> nat {
    match op {
        OpCode::Constant => 1,
        OpCode::DefineGlobal => 1,
        OpCode::GetGlobal => 1,
        OpCode::SetGlobal => 1,
        OpCode::GetLocal => 1,
        OpCode::SetLocal => 1,
        OpCode::GetUpvalue => 1,
        OpCode::SetUpvalue => 1,
        OpCode::Call => 1,
        OpCode::Closure => 1,
        OpCode::Class => 1,
        OpCode::GetProperty => 1,
        OpCode::SetProperty => 1,
        OpCode::Method => 1,
        OpCode::GetSuper => 1,
        OpCode::JumpIfFalse => 2,
        OpCode::Jump => 2,
        OpCode::Loop => 2,
        OpCode::Invoke => 2,
        OpCode::SuperInvoke => 2,
        _ => 0,
    }
}

impl OpCode {
    /// The encoding of this opcode as one byte.
    pub fn to_byte(self) -> (r: u8)
        ensures
            r == op_code_byte(self),
            spec_op_from_byte(r) == Some(self),
    {
        match self {
            OpCode::Return => 0,
            OpCode::Constant => 1,
            OpCode::Negate => 2,
            OpCode::Add => 3,
            OpCode::Subtract => 4,
            OpCode::Multiply => 5,
            OpCode::Divide => 6,
            OpCode::Nil => 7,
            OpCode::True => 8,
            OpCode::False => 9,
            OpCode::Not => 10,
            OpCode::Equal => 11,
            OpCode::Greater => 12,
            OpCode::Less => 13,
            OpCode::Print => 14,
            OpCode::Pop => 15,
            OpCode::DefineGlobal => 16,
            OpCode::GetGlobal => 17,
            OpCode::SetGlobal => 18,
            OpCode::GetLocal => 19,
            OpCode::SetLocal => 20,
            OpCode::JumpIfFalse => 21,
            OpCode::Jump => 22,
            OpCode::Loop => 23,
            OpCode::Call => 24,
            OpCode::Closure => 25,
            OpCode::GetUpvalue => 26,
            OpCode::SetUpvalue => 27,
            OpCode::CloseUpvalue => 28,
            OpCode::Class => 29,
            OpCode::GetProperty => 30,
            OpCode::SetProperty => 31,
            OpCode::Method => 32,
            OpCode::Invoke => 33,
            OpCode::Inherit => 34,
            OpCode::GetSuper => 35,
            OpCode::SuperInvoke => 36,
        }
    }

    /// Decodes one byte to an opcode; bytes past the last opcode decode to
    /// nothing.
    pub fn from_byte(b: u8) -> (r: Option<OpCode>)
        ensures
            r == spec_op_from_byte(b),
    {
        match b {
            0 => Some(OpCode::Return),
            1 => Some(OpCode::Constant),
            2 => Some(OpCode::Negate),
            3 => Some(OpCode::Add),
            4 => Some(OpCode::Subtract),
            5 => Some(OpCode::Multiply),
            6 => Some(OpCode::Divide),
            7 => Some(OpCode::Nil),
            8 => Some(OpCode::True),
            9 => Some(OpCode::False),
            10 => Some(OpCode::Not),
            11 => Some(OpCode::Equal),
            12 => Some(OpCode::Greater),
            13 => Some(OpCode::Less),
            14 => Some(OpCode::Print),
            15 => Some(OpCode::Pop),
            16 => Some(OpCode::DefineGlobal),
            17 => Some(OpCode::GetGlobal),
            18 => Some(OpCode::SetGlobal),
            19 => Some(OpCode::GetLocal),
            20 => Some(OpCode::SetLocal),
            21 => Some(OpCode::JumpIfFalse),
            22 => Some(OpCode::Jump),
            23 => Some(OpCode::Loop),
            24 => Some(OpCode::Call),
            25 => Some(OpCode::Closure),
            26 => Some(OpCode::GetUpvalue),
            27 => Some(OpCode::SetUpvalue),
            28 => Some(OpCode::CloseUpvalue),
            29 => Some(OpCode::Class),
            30 => Some(OpCode::GetProperty),
            31 => Some(OpCode::SetProperty),
            32 => Some(OpCode::Method),
            33 => Some(OpCode::Invoke),
            34 => Some(OpCode::Inherit),
            35 => Some(OpCode::GetSuper),
            36 => Some(OpCode::SuperInvoke),
            _ => None,
        }
    }

    /// The number of operand bytes that always follow this opcode.
    pub fn operand_width(self) -> (r: usize)
        ensures
            r == spec_operand_width(self),
    {
        match self {
            OpCode::Constant => 1,
            OpCode::DefineGlobal => 1,
            OpCode::GetGlobal => 1,
            OpCode::SetGlobal => 1,
            OpCode::GetLocal => 1,
            OpCode::SetLocal => 1,
            OpCode::GetUpvalue => 1,
            OpCode::SetUpvalue => 1,
            OpCode::Call => 1,
            OpCode::Closure => 1,
            OpCode::Class => 1,
            OpCode::GetProperty => 1,
            OpCode::SetProperty => 1,
            OpCode::Method => 1,
            OpCode::GetSuper => 1,
            OpCode::JumpIfFalse => 2,
            OpCode::Jump => 2,
            OpCode::Loop => 2,
            OpCode::Invoke => 2,
            OpCode::SuperInvoke => 2,
            _ => 0,
        }
    }
}

/// The error of decoding an instruction at an offset that holds no complete,
/// recognised instruction.
#[derive(Debug, Clone, Copy, PartialEq, Eq, Structural)]
pub enum ReadInstructionError {
    InvalidInstruction,
}

/// The capacity of a constant pool: indices must fit in one byte.
pub const CONSTANTS_MAX: usize = 256;

/// A self-contained block of bytecode: the code bytes, the constant pool and
/// the line table, plus a display name. Well-formed chunks record one line
/// per code byte.
#[derive(Debug)]
pub struct Chunk {
    pub code: Vec<u8>,
    pub constants: Vec<Value>,
    pub lines: Lines,
    pub name: String,
}

impl Chunk {
    /// The per-byte line mapping (the flattened line table).
    pub open spec fn spec_lines(&self) -> Seq<u32> {
        self.lines@
    }

    /// A chunk records exactly one source line per code byte, and its
    /// constant pool fits single-byte indexing.
    pub open spec fn wf(&self) -> bool {
        &&& self.spec_lines().len() == self.code@.len()
        &&& self.constants@.len() <= CONSTANTS_MAX
    }

    /// An empty chunk.
    pub fn new() -> (r: Chunk)
        ensures
            r.wf(),
            r.code@ == Seq::<u8>::empty(),
            r.constants@ == Seq::<Value>::empty(),
            r.spec_lines() == Seq::<u32>::empty(),
            r.spec_name() == Seq::<char>::empty(),
    {
        Chunk { code: Vec::new(), constants: Vec::new(), lines: Lines::new(), name: String::new() }
    }

    /// The chunk's display name.
    pub open spec fn spec_name(&self) -> Seq<char> {
        self.name@
    }

    /// Names the chunk.
    pub fn set_name(&mut self, name: &str)
        ensures
            final(self).spec_name() == name@,
            final(self).code == old(self).code,
            final(self).constants == old(self).constants,
            final(self).spec_lines() == old(self).spec_lines(),
    {
        self.name = name.to_owned();
    }

    /// The chunk's name.
    pub fn get_name(&self) -> (r: &str)
        ensures
            r@ == self.spec_name(),
    {
        self.name.as_str()
    }

    /// Removes the chunk's name.
    pub fn clear_name(&mut self)
        ensures
            final(self).spec_name() == Seq::<char>::empty(),
            final(self).code == old(self).code,
            final(self).constants == old(self).constants,
            final(self).spec_lines() == old(self).spec_lines(),
    {
        self.name = String::new();
    }

    /// Appends one code byte, recording its source line.
    pub fn write(&mut self, code: u8, line: u32)
        ensures
            final(self).code@ == old(self).code@.push(code),
            final(self).spec_lines() == old(self).spec_lines().push(line),
            final(self).constants == old(self).constants,
            final(self).spec_name() == old(self).spec_name(),
            old(self).wf() ==> final(self).wf(),
    {
        self.code.push(code);
        self.lines.add_line(line);
    }

    /// Appends one opcode byte, recording its source line.
    pub fn write_op(&mut self, op: OpCode, line: u32)
        ensures
            final(self).code@ == old(self).code@.push(op_code_byte(op)),
            final(self).spec_lines() == old(self).spec_lines().push(line),
            final(self).constants == old(self).constants,
            final(self).spec_name() == old(self).spec_name(),
            old(self).wf() ==> final(self).wf(),
    {
        let b = op.to_byte();
        self.write(b, line);
    }

    /// Appends a value to the constant pool and returns its one-byte index.
    pub fn constant(&mut self, val: Value) -> (r: u8)
        requires
            old(self).constants@.len() < CONSTANTS_MAX,
        ensures
            final(self).constants@ == old(self).constants@.push(val),
            r as int == old(self).constants@.len(),
            final(self).code == old(self).code,
            final(self).spec_lines() == old(self).spec_lines(),
            final(self).spec_name() == old(self).spec_name(),
            old(self).wf() ==> final(self).wf(),
    {
        self.constants.push(val);
        (self.constants.len() - 1) as u8
    }

    /// Boxes the finished chunk.
    pub fn pin(self) -> (r: Box<Chunk>)
        ensures
            *r == self,
    {
        Box::new(self)
    }

    /// The source line recorded for the code byte at `pos`.
    pub fn get_line(&self, pos: usize) -> (r: Option<u32>)
        ensures
            r == if pos < self.spec_lines().len() {
                Some(self.spec_lines()[pos as int])
            } else {
                None::<u32>
            },
            self.wf() && pos < self.code@.len() ==> r == Some(self.spec_lines()[pos as int]),
    {
        self.lines.get_line(pos)
    }

    /// Overwrites the two operand bytes of a previously emitted jump with a
    /// big-endian 16-bit distance. Nothing else in the chunk changes.
    pub fn patch_u16(&mut self, pos: usize, v: u16)
        requires
            pos + 1 < old(self).code@.len(),
        ensures
            final(self).code@ == old(self).code@.update(pos as int, (v / 256) as u8).update(
                pos + 1,
                (v % 256) as u8,
            ),
            final(self).code@.len() == old(self).code@.len(),
            final(self).constants == old(self).constants,
            final(self).spec_lines() == old(self).spec_lines(),
            final(self).spec_name() == old(self).spec_name(),
            old(self).wf() ==> final(self).wf(),
            spec_u16_of(final(self).code@[pos as int], final(self).code@[pos + 1]) == v,
    {
        let _bound = self.code.len();
        let hi: u8 = (v / 256) as u8;
        let lo: u8 = (v % 256) as u8;
        self.code[pos] = hi;
        let pos1 = pos + 1;
        self.code[pos1] = lo;
        proof {
            assert(spec_u16_of(hi, lo) == v) by (bit_vector)
                requires
                    hi == (v / 256) as u8 && lo == (v % 256) as u8,
            ;
        }
    }

    /// Reads a big-endian 16-bit operand at `pos`.
    pub fn read_u16(&self, pos: usize) -> (r: u16)
        requires
            pos + 1 < self.code@.len(),
        ensures
            r == spec_u16_of(self.code@[pos as int], self.code@[pos + 1]),
    {
        let _bound = self.code.len();
        let hi = self.code[pos];
        let lo = self.code[pos + 1];
        (hi as u16) * 256 + (lo as u16)
    }

    /// Decodes the instruction at `position`: its opcode and the offset just
    /// past its fixed operand bytes. Fails when the offset is out of range,
    /// the byte is no opcode, or its operands are cut short.
    pub fn read_instruction(&self, position: usize) -> (r: Result<
        (OpCode, usize),
        ReadInstructionError,
    >)
        ensures
            match r {
                Ok((op, next)) => {
                    &&& position < self.code@.len()
                    &&& spec_op_from_byte(self.code@[position as int]) == Some(op)
                    &&& next == position + 1 + spec_operand_width(op)
                    &&& next <= self.code@.len()
                },
                Err(e) => {
                    ||| position >= self.code@.len()
                    ||| spec_op_from_byte(self.code@[position as int]) is None
                    ||| (spec_op_from_byte(self.code@[position as int]) matches Some(op)
                        && position + 1 + spec_operand_width(op) > self.code@.len())
                },
            },
    {
        if position >= self.code.len() {
            return Err(ReadInstructionError::InvalidInstruction);
        }
        let b = self.code[position];
        match OpCode::from_byte(b) {
            None => Err(ReadInstructionError::InvalidInstruction),
            Some(op) => {
                let w = op.operand_width();
                let n = self.code.len();
                if w <= n - (position + 1) {
                    Ok((op, position + 1 + w))
                } else {
                    Err(ReadInstructionError::InvalidInstruction)
                }
            },
        }
    }
}

/// The 16-bit value two big-endian bytes encode.
pub open spec fn spec_u16_of(hi: u8, lo: u8) -> u16 {
    (hi * 256 + lo) as u16
}

/// A cursor over a chunk's code: the byte offset the dispatch loop is at.
#[derive(Debug, Clone, Copy, PartialEq, Eq, Structural)]
pub struct Ip {
    pub pos: usize,
}

impl Ip {
    /// A cursor at the start of the code, pointing at nothing read yet.
    pub fn null() -> (r: Ip)
        ensures
            r.pos == 0,
    {
        Ip { pos: 0 }
    }

    /// The byte offset from the start of the code.
    pub fn offset(&self) -> (r: usize)
        ensures
            r == self.pos,
    {
        self.pos
    }

    /// Advances the cursor by `span` bytes.
    pub fn jump_forward(&mut self, span: usize)
        requires
            old(self).pos + span <= usize::MAX,
        ensures
            final(self).pos == old(self).pos + span,
    {
        self.pos = self.pos + span;
    }

    /// Rewinds the cursor by `span` bytes.
    pub fn jump_back(&mut self, span: usize)
        requires
            span <= old(self).pos,
        ensures
            final(self).pos == old(self).pos - span,
    {
        self.pos = self.pos - span;
    }
}

/// A patched forward jump lands where it was aimed: when the two operand
/// bytes at offset `o` encode the distance to `t` (what `patch_jump`
/// establishes for the code length at patch time), stepping past the operand
/// and jumping arrives exactly at `t`.
pub proof fn lemma_forward_jump_round_trip(hi: u8, lo: u8, o: int, t: int)
    requires
        o >= 0,
        t >= o + 2,
        spec_u16_of(hi, lo) == t - o - 2,
    ensures
        o + 2 + spec_u16_of(hi, lo) == t,
{
}

/// A backward jump lands on its loop head: when the two operand bytes at
/// offset `o` encode the distance that `emit_loop` wrote (from just past the
/// operand back to `start`), rewinding from there arrives exactly at
/// `start`.
pub proof fn lemma_loop_jump_round_trip(hi: u8, lo: u8, o: int, start: int)
    requires
        0 <= start,
        spec_u16_of(hi, lo) == o + 2 - start,
    ensures
        (o + 2) - spec_u16_of(hi, lo) == start,
{
}

} // verus!
