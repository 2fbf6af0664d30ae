use vstd::prelude::*;

use crate::opcode::{byte_op, OpCode};
use crate::value::Value;

verus! {

/// A unit of bytecode: instruction bytes, the source line of every byte
/// (run-length encoded as `(line, count)` runs), and the constant pool.
pub struct Chunk {
    pub code: Vec<u8>,
    /// Run-length encoding of line numbers: `(line, number of bytes)`.
    pub lines: Vec<(u32, usize)>,
    pub constants: Vec<Value>,
}

/// The line of every byte that a list of runs encodes.
pub open spec fn expand_lines(runs: Seq<(u32, usize)>) -> Seq<u32>
    decreases runs.len(),
{
    if runs.len() == 0 {
        Seq::empty()
    } else {
        Seq::new(runs[0].1 as nat, |_i: int| runs[0].0) + expand_lines(runs.drop_first())
    }
}

/// The line of byte `offset` in the encoding `runs`, 0 past the end.
pub open spec fn line_at(runs: Seq<(u32, usize)>, offset: int) -> u32 {
    if 0 <= offset < expand_lines(runs).len() {
        expand_lines(runs)[offset]
    } else {
        0
    }
}

/// A canonical run-length encoding: no empty run, and neighbouring runs
/// carry different lines.
pub open spec fn canonical_runs(runs: Seq<(u32, usize)>) -> bool {
    &&& forall|i: int| 0 <= i < runs.len() ==> #[trigger] runs[i].1 > 0
    &&& forall|i: int| 0 < i < runs.len() ==> #[trigger] runs[i].0 != runs[i - 1].0
}

proof fn lemma_expand_len_bound(runs: Seq<(u32, usize)>, i: int)
    requires
        0 <= i < runs.len(),
    ensures
        runs[i].1 <= expand_lines(runs).len(),
    decreases runs.len(),
{
    if i > 0 {
        lemma_expand_len_bound(runs.drop_first(), i - 1);
    }
}

proof fn lemma_expand_push(runs: Seq<(u32, usize)>, line: u32)
    ensures
        expand_lines(runs.push((line, 1))) =~= expand_lines(runs).push(line),
    decreases runs.len(),
{
    let pushed = runs.push((line, 1));
    if runs.len() == 0 {
        assert(pushed.drop_first() =~= Seq::<(u32, usize)>::empty());
        assert(expand_lines(pushed.drop_first()) =~= Seq::<u32>::empty());
        assert(pushed[0] == (line, 1usize));
        assert(expand_lines(runs) =~= Seq::<u32>::empty());
        assert(expand_lines(pushed) =~= Seq::new(1, |_i: int| line) + Seq::<u32>::empty());
    } else {
        lemma_expand_push(runs.drop_first(), line);
        assert(pushed.drop_first() =~= runs.drop_first().push((line, 1)));
        assert(pushed[0] == runs[0]);
    }
}

proof fn lemma_expand_grow_last(runs: Seq<(u32, usize)>, line: u32, n: usize)
    requires
        runs.len() > 0,
        runs.last() == (line, n),
        n < usize::MAX,
    ensures
        expand_lines(runs.update(runs.len() - 1, (line, (n + 1) as usize))) =~= expand_lines(
            runs,
        ).push(line),
    decreases runs.len(),
{
    let new_runs = runs.update(runs.len() - 1, (line, (n + 1) as usize));
    if runs.len() == 1 {
        assert(new_runs.drop_first() =~= Seq::<(u32, usize)>::empty());
        assert(runs.drop_first() =~= Seq::<(u32, usize)>::empty());
        assert(expand_lines(Seq::<(u32, usize)>::empty()) =~= Seq::<u32>::empty());
        assert(new_runs[0] == (line, (n + 1) as usize));
        assert(runs[0] == (line, n));
        assert(expand_lines(new_runs) =~= Seq::new((n + 1) as nat, |_i: int| line));
        assert(expand_lines(runs) =~= Seq::new(n as nat, |_i: int| line));
    } else {
        lemma_expand_grow_last(runs.drop_first(), line, n);
        assert(new_runs.drop_first() =~= runs.drop_first().update(
            runs.drop_first().len() - 1,
            (line, (n + 1) as usize),
        ));
        assert(new_runs[0] == runs[0]);
        assert(expand_lines(new_runs) == Seq::new(runs[0].1 as nat, |_i: int| runs[0].0)
            + expand_lines(new_runs.drop_first()));
    }
}

proof fn lemma_line_at_step(runs: Seq<(u32, usize)>, offset: int)
    requires
        runs.len() > 0,
        offset >= 0,
    ensures
        offset >= runs[0].1 ==> line_at(runs, offset) == line_at(
            runs.drop_first(),
            offset - runs[0].1,
        ),
        offset < runs[0].1 ==> line_at(runs, offset) == runs[0].0,
{
    let head = Seq::new(runs[0].1 as nat, |_i: int| runs[0].0);
    assert(expand_lines(runs) == head + expand_lines(runs.drop_first()));
    if offset >= runs[0].1 {
        if offset < expand_lines(runs).len() {
            assert(expand_lines(runs)[offset] == expand_lines(runs.drop_first())[offset
                - runs[0].1]);
        }
    } else {
        assert(expand_lines(runs)[offset] == head[offset]);
    }
}

/// `Vec::len` of a byte vector. A vector never holds more than `isize::MAX`
/// bytes (no allocation exceeds that size), so neither does its length.
#[verifier::external_body]
pub(crate) fn byte_len(v: &Vec<u8>) -> (n: usize)
    ensures
        n == v@.len(),
        n <= isize::MAX,
{
    v.len()
}

impl Chunk {
    /// The source line of every instruction byte.
    pub open spec fn line_of(&self) -> Seq<u32> {
        expand_lines(self.lines@)
    }

    /// The line runs describe exactly the code bytes, canonically.
    pub open spec fn wf(&self) -> bool {
        &&& self.line_of().len() == self.code@.len()
        &&& canonical_runs(self.lines@)
    }

    /// An empty chunk.
    pub fn new() -> (c: Chunk)
        ensures
            c.wf(),
            c.code@ == Seq::<u8>::empty(),
            c.line_of() == Seq::<u32>::empty(),
            c.lines@ == Seq::<(u32, usize)>::empty(),
            c.constants@ == Seq::<Value>::empty(),
    {
        Chunk { code: Vec::new(), constants: Vec::new(), lines: Vec::new() }
    }

    /// Appends one instruction byte read from source line `line`.
    pub fn write_byte(&mut self, byte: u8, line: u32)
        requires
            old(self).wf(),
        ensures
            final(self).wf(),
            final(self).code@ == old(self).code@.push(byte),
            final(self).line_of() == old(self).line_of().push(line),
            ({
                let runs = old(self).lines@;
                if runs.len() > 0 && runs.last().0 == line {
                    final(self).lines@ == runs.update(
                        runs.len() - 1,
                        (line, (runs.last().1 + 1) as usize),
                    )
                } else {
                    final(self).lines@ == runs.push((line, 1usize))
                }
            }),
            final(self).constants@ == old(self).constants@,
    {
        let ghost old_runs = self.lines@;
        self.code.push(byte);
        let total = self.code.len();
        let n = self.lines.len();
        if n > 0 && self.lines[n - 1].0 == line {
            let count = self.lines[n - 1].1;
            proof {
                lemma_expand_len_bound(old_runs, n - 1);
                assert(count < total);
            }
            self.lines.set(n - 1, (line, count + 1));
            proof {
                lemma_expand_grow_last(old_runs, line, count);
                assert(self.lines@ == old_runs.update(n - 1, (line, (count + 1) as usize)));
            }
        } else {
            self.lines.push((line, 1));
            proof {
                lemma_expand_push(old_runs, line);
            }
        }
    }

    /// Appends a constant to the pool and returns its index.
    pub fn add_constant(&mut self, constant: Value) -> (index: usize)
        ensures
            final(self).constants@ == old(self).constants@.push(constant),
            index == old(self).constants@.len(),
            final(self).code@ == old(self).code@,
            final(self).lines@ == old(self).lines@,
    {
        self.constants.push(constant);
        self.constants.len() - 1
    }

    /// The source line of the byte at `offset`; 0 past the end of the code.
    pub fn get_line(&self, offset: usize) -> (line: u32)
        ensures
            line == line_at(self.lines@, offset as int),
            self.wf() && offset < self.code@.len() ==> line == self.line_of()[offset as int],
            self.wf() && offset >= self.code@.len() ==> line == 0,
    {
        let mut rem = offset;
        let mut i: usize = 0;
        assert(self.lines@.skip(0) =~= self.lines@);
        while i < self.lines.len()
            invariant
                i <= self.lines@.len(),
                line_at(self.lines@, offset as int) == line_at(self.lines@.skip(i as int), rem as int),
            decreases self.lines@.len() - i,
        {
            let run = self.lines[i];
            proof {
                lemma_line_at_step(self.lines@.skip(i as int), rem as int);
                assert(self.lines@.skip(i as int)[0] == run);
                assert(self.lines@.skip(i as int).drop_first() =~= self.lines@.skip(i + 1));
            }
            if rem >= run.1 {
                rem = rem - run.1;
            } else {
                return run.0;
            }
            i = i + 1;
        }
        proof {
            assert(self.lines@.skip(i as int) =~= Seq::<(u32, usize)>::empty());
        }
        0
    }

    /// Reads the operand of `operands` bytes (1, 2 or 3, little endian)
    /// that follows the instruction at `offset`.
    pub fn read_operand(&self, operands: usize, offset: usize) -> (value: usize)
        requires
            1 <= operands <= 3,
            offset + operands < self.code@.len(),
        ensures
            value == operand_value(self.code@, offset as int, operands as int),
    {
        assert(self.code@.len() == self.code.len());
        if operands == 3 {
            let low_byte = self.code[offset + 1] as usize;
            let mid_byte = self.code[offset + 2] as usize;
            let high_byte = self.code[offset + 3] as usize;
            proof {
                lemma_three_bytes(low_byte, mid_byte, high_byte);
            }
            (high_byte << 16) | (mid_byte << 8) | low_byte
        } else if operands == 2 {
            let low_byte = self.code[offset + 1] as usize;
            let high_byte = self.code[offset + 2] as usize;
            proof {
                lemma_two_bytes(low_byte, high_byte);
            }
            (high_byte << 8) | low_byte
        } else {
            self.code[offset + 1] as usize
        }
    }
}

/// The little-endian number in the `width` bytes after `offset`.
pub open spec fn operand_value(code: Seq<u8>, offset: int, width: int) -> int {
    if width == 3 {
        code[offset + 1] + 256 * code[offset + 2] + 65536 * code[offset + 3]
    } else if width == 2 {
        code[offset + 1] + 256 * code[offset + 2]
    } else {
        code[offset + 1] as int
    }
}

proof fn lemma_three_bytes(l: usize, m: usize, h: usize)
    requires
        l < 256,
        m < 256,
        h < 256,
    ensures
        ((h << 16) | (m << 8) | l) == l + 256 * m + 65536 * h,
{
    assert(l < 256 && m < 256 && h < 256 ==> ((h << 16) | (m << 8) | l) == l + 256 * m + 65536
        * h) by (bit_vector);
}

proof fn lemma_two_bytes(l: usize, h: usize)
    requires
        l < 256,
        h < 256,
    ensures
        ((h << 8) | l) == l + 256 * h,
{
    assert(l < 256 && h < 256 ==> ((h << 8) | l) == l + 256 * h) by (bit_vector);
}

/// Writing a byte never changes the line recorded for an earlier byte, and
/// the new byte reads back the line it was written with.
pub proof fn lemma_line_of_written(before: Chunk, after: Chunk, line: u32, offset: int)
    requires
        before.wf(),
        after.line_of() == before.line_of().push(line),
        0 <= offset <= before.code@.len(),
    ensures
        offset < before.code@.len() ==> line_at(after.lines@, offset) == line_at(before.lines@, offset),
        offset == before.code@.len() ==> line_at(after.lines@, offset) == line,
{
}

/// An instruction as the disassembler shows it: its operation and its
/// operand, read by what the operand means.
#[derive(Debug, Clone, Copy, PartialEq, Eq, Structural)]
pub enum Instruction {
    /// An instruction without operand.
    Simple(OpCode),
    /// An index into the constant pool.
    Constant(OpCode, usize),
    /// A slot of the frame on the stack.
    Stack(OpCode, usize),
    /// A plain number: an argument count or a jump distance.
    Number(OpCode, usize),
    /// The heap index of a function.
    Closure(OpCode, usize),
    /// A byte that encodes no instruction.
    Invalid(u8),
}

/// How the disassembler reads the operand of `op`: what kind of operand,
/// and how many bytes (0 for none).
pub open spec fn operand_kind(op: OpCode) -> (int, int) {
    match op {
        OpCode::LoadConstant | OpCode::DefineGlobal | OpCode::GetGlobal | OpCode::SetGlobal => (1, 1),
        OpCode::LoadConstantLong | OpCode::DefineGlobalLong | OpCode::GetGlobalLong
        | OpCode::SetGlobalLong => (1, 3),
        OpCode::GetLocal | OpCode::SetLocal => (2, 1),
        OpCode::GetLocalLong | OpCode::SetLocalLong => (2, 3),
        OpCode::Call => (3, 1),
        OpCode::Jump | OpCode::JumpIfFalse | OpCode::Loop => (3, 2),
        OpCode::Closure => (4, 1),
        OpCode::ClosureLong => (4, 3),
        _ => (0, 0),
    }
}

/// The instruction of kind `kind` (as `operand_kind` numbers them) with
/// operation `op` and operand `n`.
pub open spec fn make_instruction(kind: int, op: OpCode, n: usize) -> Instruction {
    if kind == 1 {
        Instruction::Constant(op, n)
    } else if kind == 2 {
        Instruction::Stack(op, n)
    } else if kind == 3 {
        Instruction::Number(op, n)
    } else if kind == 4 {
        Instruction::Closure(op, n)
    } else {
        Instruction::Simple(op)
    }
}

/// The instruction at `offset` of `code` and its number of bytes; `None`
/// when its operand runs past the end of the code.
pub open spec fn disassembled(code: Seq<u8>, offset: int) -> Option<(Instruction, int)> {
    match byte_op(code[offset]) {
        None => Some((Instruction::Invalid(code[offset]), 1)),
        Some(op) => {
            let (kind, width) = operand_kind(op);
            if offset + width < code.len() {
                Some((make_instruction(kind, op, operand_value(code, offset, width) as usize), width + 1))
            } else {
                None
            }
        },
    }
}

impl Chunk {
    /// The instruction at `offset` and its number of bytes, as the
    /// disassembler reads it; `None` when its operand runs past the end of
    /// the code.
    pub fn instruction_at(&self, offset: usize) -> (r: Option<(Instruction, usize)>)
        requires
            offset < self.code@.len(),
        ensures
            r matches Some((i, n)) ==> disassembled(self.code@, offset as int) == Some((i, n as int)),
            r is None ==> disassembled(self.code@, offset as int) is None,
    {
        let byte = self.code[offset];
        let op = match OpCode::from_byte(byte) {
            Some(op) => op,
            None => {
                return Some((Instruction::Invalid(byte), 1));
            },
        };
        let (kind, width): (u8, usize) = match op {
            OpCode::LoadConstant | OpCode::DefineGlobal | OpCode::GetGlobal | OpCode::SetGlobal => (
                1,
                1,
            ),
            OpCode::LoadConstantLong | OpCode::DefineGlobalLong | OpCode::GetGlobalLong
            | OpCode::SetGlobalLong => (1, 3),
            OpCode::GetLocal | OpCode::SetLocal => (2, 1),
            OpCode::GetLocalLong | OpCode::SetLocalLong => (2, 3),
            OpCode::Call => (3, 1),
            OpCode::Jump | OpCode::JumpIfFalse | OpCode::Loop => (3, 2),
            OpCode::Closure => (4, 1),
            OpCode::ClosureLong => (4, 3),
            _ => (0, 0),
        };
        if width == 0 {
            return Some((Instruction::Simple(op), 1));
        }
        let len = byte_len(&self.code);
        if width >= len - offset {
            return None;
        }
        let n = self.read_operand(width, offset);
        let instruction = if kind == 1 {
            Instruction::Constant(op, n)
        } else if kind == 2 {
            Instruction::Stack(op, n)
        } else if kind == 3 {
            Instruction::Number(op, n)
        } else {
            Instruction::Closure(op, n)
        };
        Some((instruction, width + 1))
    }
}

} // verus!
