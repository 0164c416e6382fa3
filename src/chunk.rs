use vstd::prelude::*;
use vstd::string::StringSliceAdditionalSpecFns;
use crate::value::Value;
use crate::text::{
    decimal,
    pad_left,
    pad_right,
    push_bytes,
    push_decimal,
    push_padded,
    push_left_justified,
};

verus! {

/// The instructions of the virtual machine.
#[derive(Clone, Copy, Debug, PartialEq, Eq, Structural)]
pub enum Opcode {
    Constant,
    Nil,
    True,
    False,
    Equal,
    Greater,
    Less,
    Add,
    Subtract,
    Multiply,
    Divide,
    Not,
    Negate,
    Return,
}

/// The byte that encodes each instruction.
pub open spec fn opcode_byte(op: Opcode) -> u8 {
    match op {
        Opcode::Constant => 1,
        Opcode::Nil => 2,
        Opcode::True => 3,
        Opcode::False => 4,
        Opcode::Equal => 5,
        Opcode::Greater => 6,
        Opcode::Less => 7,
        Opcode::Add => 8,
        Opcode::Subtract => 9,
        Opcode::Multiply => 10,
        Opcode::Divide => 11,
        Opcode::Not => 12,
        Opcode::Negate => 13,
        Opcode::Return => 14,
    }
}

/// The instruction that a byte encodes, if any.
pub open spec fn decode(b: u8) -> Option<Opcode> {
    if b == 1 {
        Some(Opcode::Constant)
    } else if b == 2 {
        Some(Opcode::Nil)
    } else if b == 3 {
        Some(Opcode::True)
    } else if b == 4 {
        Some(Opcode::False)
    } else if b == 5 {
        Some(Opcode::Equal)
    } else if b == 6 {
        Some(Opcode::Greater)
    } else if b == 7 {
        Some(Opcode::Less)
    } else if b == 8 {
        Some(Opcode::Add)
    } else if b == 9 {
        Some(Opcode::Subtract)
    } else if b == 10 {
        Some(Opcode::Multiply)
    } else if b == 11 {
        Some(Opcode::Divide)
    } else if b == 12 {
        Some(Opcode::Not)
    } else if b == 13 {
        Some(Opcode::Negate)
    } else if b == 14 {
        Some(Opcode::Return)
    } else {
        None
    }
}

/// Encoding and decoding are inverse.
pub proof fn lemma_decode_opcode_byte(op: Opcode)
    ensures
        decode(opcode_byte(op)) == Some(op),
{
}

impl Opcode {
    pub fn to_byte(self) -> (r: u8)
        ensures
            r == opcode_byte(self),
    {
        match self {
            Opcode::Constant => 1,
            Opcode::Nil => 2,
            Opcode::True => 3,
            Opcode::False => 4,
            Opcode::Equal => 5,
            Opcode::Greater => 6,
            Opcode::Less => 7,
            Opcode::Add => 8,
            Opcode::Subtract => 9,
            Opcode::Multiply => 10,
            Opcode::Divide => 11,
            Opcode::Not => 12,
            Opcode::Negate => 13,
            Opcode::Return => 14,
        }
    }

    /// The instruction encoded by `b`, or `None` for a byte that encodes none.
    pub fn from_byte(b: u8) -> (r: Option<Opcode>)
        ensures
            r == decode(b),
    {
        if b == 1 {
            Some(Opcode::Constant)
        } else if b == 2 {
            Some(Opcode::Nil)
        } else if b == 3 {
            Some(Opcode::True)
        } else if b == 4 {
            Some(Opcode::False)
        } else if b == 5 {
            Some(Opcode::Equal)
        } else if b == 6 {
            Some(Opcode::Greater)
        } else if b == 7 {
            Some(Opcode::Less)
        } else if b == 8 {
            Some(Opcode::Add)
        } else if b == 9 {
            Some(Opcode::Subtract)
        } else if b == 10 {
            Some(Opcode::Multiply)
        } else if b == 11 {
            Some(Opcode::Divide)
        } else if b == 12 {
            Some(Opcode::Not)
        } else if b == 13 {
            Some(Opcode::Negate)
        } else if b == 14 {
            Some(Opcode::Return)
        } else {
            None
        }
    }
}

/// Binding strength, from lowest to highest.
#[derive(Clone, Copy, Debug, PartialEq, Eq, Structural)]
pub enum Precedence {
    Lowest,
    Assignment,
    Or,
    And,
    Equality,
    Comparison,
    Term,
    Factor,
    Unary,
    Call,
    Primary,
}

pub open spec fn level(p: Precedence) -> nat {
    match p {
        Precedence::Lowest => 1,
        Precedence::Assignment => 2,
        Precedence::Or => 3,
        Precedence::And => 4,
        Precedence::Equality => 5,
        Precedence::Comparison => 6,
        Precedence::Term => 7,
        Precedence::Factor => 8,
        Precedence::Unary => 9,
        Precedence::Call => 10,
        Precedence::Primary => 11,
    }
}

/// The next higher precedence (`Primary` is the highest and stays).
pub open spec fn spec_next(p: Precedence) -> Precedence {
    match p {
        Precedence::Lowest => Precedence::Assignment,
        Precedence::Assignment => Precedence::Or,
        Precedence::Or => Precedence::And,
        Precedence::And => Precedence::Equality,
        Precedence::Equality => Precedence::Comparison,
        Precedence::Comparison => Precedence::Term,
        Precedence::Term => Precedence::Factor,
        Precedence::Factor => Precedence::Unary,
        Precedence::Unary => Precedence::Call,
        Precedence::Call => Precedence::Primary,
        Precedence::Primary => Precedence::Primary,
    }
}

impl Precedence {
    pub fn level(self) -> (r: u8)
        ensures
            r == level(self),
    {
        match self {
            Precedence::Lowest => 1,
            Precedence::Assignment => 2,
            Precedence::Or => 3,
            Precedence::And => 4,
            Precedence::Equality => 5,
            Precedence::Comparison => 6,
            Precedence::Term => 7,
            Precedence::Factor => 8,
            Precedence::Unary => 9,
            Precedence::Call => 10,
            Precedence::Primary => 11,
        }
    }

    pub fn next(self) -> (r: Precedence)
        ensures
            r == spec_next(self),
    {
        match self {
            Precedence::Lowest => Precedence::Assignment,
            Precedence::Assignment => Precedence::Or,
            Precedence::Or => Precedence::And,
            Precedence::And => Precedence::Equality,
            Precedence::Equality => Precedence::Comparison,
            Precedence::Comparison => Precedence::Term,
            Precedence::Term => Precedence::Factor,
            Precedence::Factor => Precedence::Unary,
            Precedence::Unary => Precedence::Call,
            Precedence::Call => Precedence::Primary,
            Precedence::Primary => Precedence::Primary,
        }
    }
}

/// Most constants a chunk can hold: an operand is one byte.
pub const MAX_CONSTANTS: usize = 256;

/// The code from offset `i` on is a sequence of whole instructions: each byte an
/// opcode, and each `Constant` followed by an operand below `n`.
pub open spec fn valid_from(code: Seq<u8>, i: int, n: int) -> bool
    decreases code.len() - i,
{
    if i >= code.len() {
        i == code.len()
    } else if code[i] == opcode_byte(Opcode::Constant) {
        i + 1 < code.len() && (code[i + 1] as int) < n && valid_from(code, i + 2, n)
    } else {
        decode(code[i]).is_some() && valid_from(code, i + 1, n)
    }
}

/// A chunk's content.
pub struct ChunkModel {
    pub code: Seq<u8>,
    pub lines: Seq<usize>,
    pub constants: Seq<Value>,
}

/// Bytecode: the instruction bytes, the line of each byte, and the constants.
pub struct Chunk {
    pub code: Vec<u8>,
    pub constants: Vec<Value>,
    pub lines: Vec<usize>,
}

impl View for Chunk {
    type V = ChunkModel;

    open spec fn view(&self) -> ChunkModel {
        ChunkModel { code: self.code@, lines: self.lines@, constants: self.constants@ }
    }
}

impl ChunkModel {
    /// One line per byte, at most `MAX_CONSTANTS` constants, and whole instructions
    /// whose operands index the constants.
    pub open spec fn wf(&self) -> bool {
        &&& self.code.len() == self.lines.len()
        &&& self.constants.len() <= MAX_CONSTANTS
        &&& valid_from(self.code, 0, self.constants.len() as int)
    }
}

/// Appending whole instructions to whole instructions gives whole instructions.
pub proof fn lemma_valid_append(a: Seq<u8>, b: Seq<u8>, i: int, n: int)
    requires
        0 <= i <= a.len(),
        valid_from(a, i, n),
        valid_from(b, 0, n),
    ensures
        valid_from(a + b, i, n),
    decreases a.len() - i,
{
    if i == a.len() {
        lemma_valid_shift(a, b, 0, n);
    } else if a[i] == opcode_byte(Opcode::Constant) {
        lemma_valid_append(a, b, i + 2, n);
    } else {
        lemma_valid_append(a, b, i + 1, n);
    }
}

proof fn lemma_valid_shift(a: Seq<u8>, b: Seq<u8>, j: int, n: int)
    requires
        0 <= j <= b.len(),
        valid_from(b, j, n),
    ensures
        valid_from(a + b, a.len() + j, n),
    decreases b.len() - j,
{
    if j < b.len() {
        if b[j] == opcode_byte(Opcode::Constant) {
            lemma_valid_shift(a, b, j + 2, n);
        } else {
            lemma_valid_shift(a, b, j + 1, n);
        }
    }
}

/// A larger constant table keeps every operand valid.
pub proof fn lemma_valid_grow(code: Seq<u8>, i: int, n: int, m: int)
    requires
        0 <= i <= code.len(),
        n <= m,
        valid_from(code, i, n),
    ensures
        valid_from(code, i, m),
    decreases code.len() - i,
{
    if i < code.len() {
        if code[i] == opcode_byte(Opcode::Constant) {
            lemma_valid_grow(code, i + 2, n, m);
        } else {
            lemma_valid_grow(code, i + 1, n, m);
        }
    }
}

impl Chunk {
    pub fn new() -> (r: Self)
        ensures
            r@.code.len() == 0,
            r@.lines.len() == 0,
            r@.constants.len() == 0,
            r@.wf(),
    {
        Self { code: Vec::new(), constants: Vec::new(), lines: Vec::new() }
    }

    /// Appends one byte and its line.
    pub fn write(&mut self, byte: u8, line: usize)
        ensures
            final(self)@ == (ChunkModel {
                code: old(self)@.code.push(byte),
                lines: old(self)@.lines.push(line),
                constants: old(self)@.constants,
            }),
    {
        self.code.push(byte);
        self.lines.push(line);
    }

    /// Appends one instruction byte and its line.
    pub fn write_instruction(&mut self, instruction: Opcode, line: usize)
        ensures
            final(self)@ == (ChunkModel {
                code: old(self)@.code.push(opcode_byte(instruction)),
                lines: old(self)@.lines.push(line),
                constants: old(self)@.constants,
            }),
    {
        self.write(instruction.to_byte(), line);
    }

    /// Adds a constant and returns its index; `None`, with the chunk unchanged,
    /// when the table already holds `MAX_CONSTANTS` entries.
    pub fn add_constant(&mut self, value: Value) -> (r: Option<u8>)
        ensures
            old(self)@.constants.len() < MAX_CONSTANTS ==> r == Some(
                old(self)@.constants.len() as u8,
            ) && final(self)@ == (ChunkModel {
                constants: old(self)@.constants.push(value),
                ..old(self)@
            }),
            old(self)@.constants.len() >= MAX_CONSTANTS ==> r.is_none() && final(self)@ == old(
                self,
            )@,
    {
        if self.constants.len() < MAX_CONSTANTS {
            let index = self.constants.len() as u8;
            self.constants.push(value);
            Some(index)
        } else {
            None
        }
    }
}

// ---------------------------------------------------------------------------
// Disassembly.
// ---------------------------------------------------------------------------

/// The name an instruction is listed under.
pub open spec fn opcode_name(op: Opcode) -> &'static str {
    match op {
        Opcode::Constant => "OP_CONSTANT",
        Opcode::Nil => "OP_NIL",
        Opcode::True => "OP_TRUE",
        Opcode::False => "OP_FALSE",
        Opcode::Equal => "OP_EQUAL",
        Opcode::Greater => "OP_GREATER",
        Opcode::Less => "OP_LESS",
        Opcode::Add => "OP_ADD",
        Opcode::Subtract => "OP_SUBTRACT",
        Opcode::Multiply => "OP_MULTIPLY",
        Opcode::Divide => "OP_DIVIDE",
        Opcode::Not => "OP_NOT",
        Opcode::Negate => "OP_NEGATE",
        Opcode::Return => "OP_RETURN",
    }
}

impl Opcode {
    pub fn name(self) -> (r: &'static str)
        ensures
            r == opcode_name(self),
    {
        match self {
            Opcode::Constant => "OP_CONSTANT",
            Opcode::Nil => "OP_NIL",
            Opcode::True => "OP_TRUE",
            Opcode::False => "OP_FALSE",
            Opcode::Equal => "OP_EQUAL",
            Opcode::Greater => "OP_GREATER",
            Opcode::Less => "OP_LESS",
            Opcode::Add => "OP_ADD",
            Opcode::Subtract => "OP_SUBTRACT",
            Opcode::Multiply => "OP_MULTIPLY",
            Opcode::Divide => "OP_DIVIDE",
            Opcode::Not => "OP_NOT",
            Opcode::Negate => "OP_NEGATE",
            Opcode::Return => "OP_RETURN",
        }
    }
}

pub open spec fn newline() -> Seq<u8> {
    seq!['\n' as u8]
}

/// The offset and line columns that start each listed instruction: the offset
/// in four zero-padded digits, then `   | ` when the byte's line is the
/// previous byte's, else the line right-justified in four columns.
pub open spec fn listing_prefix(c: ChunkModel, offset: int) -> Seq<u8> {
    pad_left(decimal(offset as nat), 4, '0' as u8) + seq![' ' as u8] + if offset > 0
        && c.lines[offset] == c.lines[offset - 1] {
        seq![' ' as u8, ' ' as u8, ' ' as u8, '|' as u8, ' ' as u8]
    } else {
        pad_left(decimal(c.lines[offset] as nat), 4, ' ' as u8) + seq![' ' as u8]
    }
}

/// The listing line of the instruction at `offset`, and the offset after it.
/// `texts[i]` is how constant `i` is displayed.
pub open spec fn instruction_text(c: ChunkModel, offset: int, texts: Seq<Seq<u8>>) -> (
    Seq<u8>,
    int,
) {
    let prefix = listing_prefix(c, offset);
    let b = c.code[offset];
    match decode(b) {
        Some(Opcode::Constant) => {
            let idx = c.code[offset + 1];
            (
                prefix + pad_right(opcode_name(Opcode::Constant).spec_bytes(), 16) + seq![' ' as u8]
                    + pad_left(decimal(idx as nat), 4, ' ' as u8) + seq![' ' as u8, '\'' as u8]
                    + texts[idx as int] + seq!['\'' as u8] + newline(),
                offset + 2,
            )
        },
        Some(op) => (prefix + opcode_name(op).spec_bytes() + newline(), offset + 1),
        None => (prefix + "Unknown opcode ".spec_bytes() + decimal(b as nat) + newline(), offset + 1),
    }
}

/// The listing of every instruction from `offset` on.
pub open spec fn listing(c: ChunkModel, offset: int, texts: Seq<Seq<u8>>) -> Seq<u8>
    decreases c.code.len() - offset,
{
    if 0 <= offset < c.code.len() {
        let (t, next) = instruction_text(c, offset, texts);
        if offset < next <= c.code.len() {
            t + listing(c, next, texts)
        } else {
            t
        }
    } else {
        seq![]
    }
}

impl Chunk {
    /// Lists an instruction without operand; returns the next offset.
    pub fn simple_instruction(&self, name: &str, offset: usize, out: &mut Vec<u8>) -> (r: usize)
        requires
            offset < usize::MAX,
        ensures
            final(out)@ == old(out)@ + name.spec_bytes() + newline(),
            r == offset + 1,
    {
        push_bytes(out, name.as_bytes());
        out.push('\n' as u8);
        assert(final(out)@ =~= old(out)@ + name.spec_bytes() + newline());
        offset + 1
    }

    /// Lists a constant instruction, its operand and the constant's text;
    /// returns the next offset.
    pub fn constant_instruction(
        &self,
        name: &str,
        offset: usize,
        texts: &[Vec<u8>],
        out: &mut Vec<u8>,
    ) -> (r: usize)
        requires
            offset + 2 <= self@.code.len(),
            (self@.code[offset + 1] as int) < texts@.len(),
        ensures
            ({
                let idx = self@.code[offset + 1];
                final(out)@ == old(out)@ + pad_right(name.spec_bytes(), 16) + seq![' ' as u8]
                    + pad_left(decimal(idx as nat), 4, ' ' as u8) + seq![' ' as u8, '\'' as u8]
                    + texts@[idx as int]@ + seq!['\'' as u8] + newline()
            }),
            r == offset + 2,
    {
        proof {
            assert(self.code@.len() == self.code.len());
        }
        let constant_index = self.code[offset + 1] as usize;
        push_left_justified(out, name.as_bytes(), 16);
        out.push(' ' as u8);
        push_padded(out, constant_index, 4, ' ' as u8);
        out.push(' ' as u8);
        out.push('\'' as u8);
        push_bytes(out, texts[constant_index].as_slice());
        out.push('\'' as u8);
        out.push('\n' as u8);
        let ghost idx = self@.code[offset + 1];
        assert(final(out)@ =~= old(out)@ + pad_right(name.spec_bytes(), 16) + seq![' ' as u8]
            + pad_left(decimal(idx as nat), 4, ' ' as u8) + seq![' ' as u8, '\'' as u8]
            + texts@[idx as int]@ + seq!['\'' as u8] + newline());
        offset + 2
    }

    /// Lists the instruction at `offset`; returns the offset of the next one.
    #[verifier::rlimit(60)]
    pub fn disassemble_instruction(&self, offset: usize, texts: &[Vec<u8>], out: &mut Vec<u8>) -> (r:
        usize)
        requires
            offset < self@.code.len(),
            self@.lines.len() == self@.code.len(),
            self@.code[offset as int] == opcode_byte(Opcode::Constant) ==> offset + 1
                < self@.code.len() && (self@.code[offset + 1] as int) < texts@.len(),
        ensures
            ({
                let (t, next) = instruction_text(self@, offset as int, texts@.map_values(|v: Vec<u8>| v@));
                final(out)@ == old(out)@ + t && r == next
            }),
    {
        let ghost start = out@;
        proof {
            assert(self.code@.len() == self.code.len());
        }
        push_padded(out, offset, 4, '0' as u8);
        out.push(' ' as u8);
        if offset > 0 && self.lines[offset] == self.lines[offset - 1] {
            push_bytes(out, &[' ' as u8, ' ' as u8, ' ' as u8, '|' as u8, ' ' as u8]);
        } else {
            push_padded(out, self.lines[offset], 4, ' ' as u8);
            out.push(' ' as u8);
        }
        let ghost mid = out@;
        assert(mid =~= start + listing_prefix(self@, offset as int));
        let byte = self.code[offset];
        let ghost ts = texts@.map_values(|v: Vec<u8>| v@);
        let ghost expected = instruction_text(self@, offset as int, ts).0;
        match Opcode::from_byte(byte) {
            Some(Opcode::Constant) => {
                let r = self.constant_instruction(Opcode::Constant.name(), offset, texts, out);
                proof {
                    assert(ts[self@.code[offset + 1] as int] == texts@[self@.code[offset + 1] as int]@);
                    assert(out@ =~= start + expected);
                }
                r
            },
            Some(op) => {
                let r = self.simple_instruction(op.name(), offset, out);
                proof {
                    assert(out@ =~= start + expected);
                }
                r
            },
            None => {
                push_bytes(out, "Unknown opcode ".as_bytes());
                push_decimal(out, byte as usize);
                out.push('\n' as u8);
                proof {
                    assert(out@ =~= start + expected);
                }
                offset + 1
            },
        }
    }

    /// The listing of the whole chunk under a `== name ==` header.
    pub fn disassemble_chunk(&self, name: &str, texts: &[Vec<u8>]) -> (r: Vec<u8>)
        requires
            self@.wf(),
            self@.constants.len() <= texts@.len(),
        ensures
            r@ == "== ".spec_bytes() + name.spec_bytes() + " ==".spec_bytes() + newline()
                + listing(self@, 0, texts@.map_values(|v: Vec<u8>| v@)),
    {
        let ghost ts = texts@.map_values(|v: Vec<u8>| v@);
        let mut out: Vec<u8> = Vec::new();
        push_bytes(&mut out, "== ".as_bytes());
        push_bytes(&mut out, name.as_bytes());
        push_bytes(&mut out, " ==".as_bytes());
        out.push('\n' as u8);
        let ghost header = out@;
        let n = self.constants.len();
        let mut offset: usize = 0;
        while offset < self.code.len()
            invariant
                self@.wf(),
                self@.constants.len() <= texts@.len(),
                n == self@.constants.len(),
                ts == texts@.map_values(|v: Vec<u8>| v@),
                offset <= self@.code.len(),
                valid_from(self@.code, offset as int, n as int),
                out@ + listing(self@, offset as int, ts) == header + listing(self@, 0, ts),
            decreases self@.code.len() - offset,
        {
            let ghost before = out@;
            let next = self.disassemble_instruction(offset, texts, &mut out);
            assert(out@ + listing(self@, next as int, ts) =~= before + listing(self@, offset as int, ts));
            offset = next;
        }
        assert(out@ =~= header + listing(self@, 0, ts));
        out
    }
}

} // verus!
