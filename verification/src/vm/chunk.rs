//! Chunks of byte code and the decoding of their instruction bytes.

use crate::vm::value::{constant_at, ConstantPool, Value};
use vstd::prelude::*;
use vstd::std_specs::convert::FromSpecImpl;

verus! {

/// What one instruction byte means.
#[derive(PartialEq, Eq, Debug, Clone, Copy, Structural)]
pub enum OpCode {
    /// Ends the run.
    Return,
    /// Loads the constant whose index is the byte that follows.
    Constant,
    /// A byte that stands for no instruction; it carries that byte.
    Invalid(u8),
}

/// The instruction that `byte` stands for. Every byte decodes: one that
/// stands for no instruction decodes to `Invalid` of itself.
pub open spec fn decode(byte: u8) -> OpCode {
    if byte == 0 {
        OpCode::Return
    } else if byte == 1 {
        OpCode::Constant
    } else {
        OpCode::Invalid(byte)
    }
}

/// Whether `byte` stands for an instruction.
pub open spec fn is_defined(byte: u8) -> bool {
    byte == 0 || byte == 1
}

/// A byte that stands for no instruction decodes to `Invalid` of that very
/// byte.
pub proof fn lemma_decode_undefined(byte: u8)
    requires
        !is_defined(byte),
    ensures
        decode(byte) == OpCode::Invalid(byte),
{
}

/// A byte that stands for an instruction never decodes to `Invalid`.
pub proof fn lemma_decode_defined(byte: u8)
    requires
        is_defined(byte),
    ensures
        !(decode(byte) is Invalid),
{
}

impl From<u8> for OpCode {
    fn from(byte: u8) -> (op: Self) {
        match byte {
            0 => OpCode::Return,
            1 => OpCode::Constant,
            invalid => OpCode::Invalid(invalid),
        }
    }
}

impl FromSpecImpl<u8> for OpCode {
    open spec fn obeys_from_spec() -> bool {
        true
    }

    open spec fn from_spec(byte: u8) -> OpCode {
        decode(byte)
    }
}

impl OpCode {
    /// How many operand bytes follow the instruction byte.
    pub open spec fn spec_arity(self) -> nat {
        match self {
            OpCode::Return => 0,
            OpCode::Constant => 1,
            OpCode::Invalid(_) => 0,
        }
    }

    /// How many bytes the whole instruction takes: its own byte and its
    /// operands.
    pub open spec fn spec_width(self) -> nat {
        1 + self.spec_arity()
    }

    /// How many operand bytes follow the instruction byte. The
    /// disassembler and the machine both step by what this says.
    pub fn arity(self) -> (count: usize)
        ensures
            count == self.spec_arity(),
    {
        match self {
            OpCode::Return => 0,
            OpCode::Constant => 1,
            OpCode::Invalid(_) => 0,
        }
    }

    /// How many bytes the whole instruction takes.
    pub fn width(self) -> (count: usize)
        ensures
            count == self.spec_width(),
            1 <= count <= 2,
    {
        1 + self.arity()
    }
}

/// The byte that a read outside the code gives. It stands for no
/// instruction, so decoding it faults.
pub const OUT_OF_RANGE_BYTE: u8 = 255;

/// The line that a lookup outside the line table gives. No source line has
/// this number.
pub const UNKNOWN_LINE: u32 = 0;

/// The byte at `offset` of `code`, or `OUT_OF_RANGE_BYTE` where the code
/// has no such offset.
pub open spec fn byte_at(code: Seq<u8>, offset: int) -> u8 {
    if 0 <= offset < code.len() {
        code[offset]
    } else {
        OUT_OF_RANGE_BYTE
    }
}

/// The line at `index` of `lines`, or `UNKNOWN_LINE` where the table has
/// no such index.
pub open spec fn line_at(lines: Seq<u32>, index: int) -> u32 {
    if 0 <= index < lines.len() {
        lines[index]
    } else {
        UNKNOWN_LINE
    }
}

/// The byte that a read outside the code gives stands for no instruction:
/// whoever decodes it finds `Invalid`.
pub proof fn lemma_out_of_range_byte_is_invalid()
    ensures
        !is_defined(OUT_OF_RANGE_BYTE),
        decode(OUT_OF_RANGE_BYTE) == OpCode::Invalid(OUT_OF_RANGE_BYTE),
{
}

/// Writing a byte changes no byte that was there: every offset within the
/// old code reads as before, the new offset reads the new byte, and
/// whatever lies beyond still reads as out of range.
pub proof fn lemma_write_keeps_bytes(code: Seq<u8>, byte: u8, offset: int)
    ensures
        byte_at(code.push(byte), offset) == if offset == code.len() {
            byte
        } else {
            byte_at(code, offset)
        },
{
}

/// Writing a line changes no line that was there.
pub proof fn lemma_write_keeps_lines(lines: Seq<u32>, line: u32, index: int)
    ensures
        line_at(lines.push(line), index) == if index == lines.len() {
            line
        } else {
            line_at(lines, index)
        },
{
}

/// The instruction that starts at `offset` of `code`.
pub open spec fn opcode_at(code: Seq<u8>, offset: int) -> OpCode {
    decode(byte_at(code, offset))
}

/// What a chunk holds, as plain sequences.
pub struct ChunkView {
    /// The instruction stream.
    pub code: Seq<u8>,
    /// The constants, by index.
    pub constants: Seq<Value>,
    /// The source line of each byte of `code`.
    pub lines: Seq<u32>,
}

impl ChunkView {
    /// A chunk has one line for each byte of code, and its code is short
    /// enough that the offset behind any instruction fits a `usize`.
    pub open spec fn well_formed(self) -> bool {
        &&& self.code.len() == self.lines.len()
        &&& self.code.len() + 2 <= usize::MAX
    }
}

/// A series of byte code instructions with the constants they refer to and
/// the source line of each byte.
#[derive(PartialEq, Debug)]
pub struct Chunk {
    code: Vec<u8>,
    constants: ConstantPool,
    lines: Vec<u32>,
}

impl View for Chunk {
    type V = ChunkView;

    closed spec fn view(&self) -> ChunkView {
        ChunkView { code: self.code@, constants: self.constants@, lines: self.lines@ }
    }
}

impl Chunk {
    /// Holds of every chunk that code can get hold of: the builders below
    /// keep it, and nothing else makes a chunk.
    #[verifier::type_invariant]
    pub open spec fn inv(&self) -> bool {
        self@.well_formed()
    }

    /// An empty chunk.
    pub fn new() -> (chunk: Self)
        ensures
            chunk@.code == Seq::<u8>::empty(),
            chunk@.constants == Seq::<Value>::empty(),
            chunk@.lines == Seq::<u32>::empty(),
            chunk@.well_formed(),
    {
        Chunk { code: Vec::new(), constants: ConstantPool::new(), lines: Vec::new() }
    }

    /// A chunk made of finished parts, where there is one line for each
    /// byte of code; `None` where there is not, or where the code is too
    /// long to be addressed.
    pub fn from_parts(code: Vec<u8>, constants: ConstantPool, lines: Vec<u32>) -> (chunk: Option<
        Self,
    >)
        ensures
            chunk is Some <==> (ChunkView {
                code: code@,
                constants: constants@,
                lines: lines@,
            }).well_formed(),
            chunk matches Some(c) ==> c@ == (ChunkView {
                code: code@,
                constants: constants@,
                lines: lines@,
            }),
    {
        if code.len() == lines.len() && code.len() <= usize::MAX - 2 {
            Some(Chunk { code, constants, lines })
        } else {
            None
        }
    }

    /// The chunk with one more byte of code and the source line it came
    /// from.
    ///
    /// The code of a chunk stays two bytes short of the largest `usize`, so
    /// that the offset behind any instruction can be written down; no
    /// vector in memory comes near that length.
    pub fn write(self, byte: u8, line: u32) -> (chunk: Self)
        requires
            self@.code.len() + 3 <= usize::MAX,
        ensures
            chunk@.code == self@.code.push(byte),
            chunk@.lines == self@.lines.push(line),
            chunk@.constants == self@.constants,
            chunk@.well_formed(),
    {
        proof {
            use_type_invariant(&self);
        }
        let mut code = self.code;
        let mut lines = self.lines;
        code.push(byte);
        lines.push(line);
        Chunk { code, constants: self.constants, lines }
    }

    /// The chunk with one more constant, and the index that the constant
    /// got. Earlier constants keep their indices. An instruction names a
    /// constant by one byte, so only an index below 256 can be used as an
    /// operand: the index is handed back as it is, never wrapped.
    pub fn add_constant(self, value: Value) -> (added: (Self, usize))
        ensures
            added.0@.constants == self@.constants.push(value),
            added.0@.code == self@.code,
            added.0@.lines == self@.lines,
            added.0@.well_formed(),
            added.1 == self@.constants.len(),
    {
        proof {
            use_type_invariant(&self);
        }
        let index = self.constants.len();
        let constants = self.constants.write(value);
        (Chunk { code: self.code, constants, lines: self.lines }, index)
    }

    /// The byte at `offset`, or `OUT_OF_RANGE_BYTE` where the code has no
    /// such offset.
    pub fn byte_at(&self, offset: usize) -> (byte: u8)
        ensures
            byte == byte_at(self@.code, offset as int),
    {
        if offset < self.code.len() {
            self.code[offset]
        } else {
            OUT_OF_RANGE_BYTE
        }
    }

    /// The constant at `index`, or `Value::DoesNotExist` where the pool has
    /// no such index.
    pub fn const_val(&self, index: u8) -> (value: Value)
        ensures
            value == constant_at(self@.constants, index as int),
    {
        self.constants.get_const(index as usize)
    }

    /// The constant named by the byte at `offset`.
    pub fn read_const(&self, offset: usize) -> (value: Value)
        ensures
            value == constant_at(self@.constants, byte_at(self@.code, offset as int) as int),
    {
        self.const_val(self.byte_at(offset))
    }

    /// The source line of the byte at `index`, or `UNKNOWN_LINE` where the
    /// code has no such byte.
    pub fn get_line(&self, index: usize) -> (line: u32)
        ensures
            line == line_at(self@.lines, index as int),
    {
        if index < self.lines.len() {
            self.lines[index]
        } else {
            UNKNOWN_LINE
        }
    }

    /// How many bytes of code the chunk holds.
    pub fn size(&self) -> (count: usize)
        ensures
            count == self@.code.len(),
    {
        self.code.len()
    }

    /// A small chunk for trying things out by hand: a `Return`, then a
    /// `Constant` that loads the integer 32, all from line 1.
    pub fn test() -> (chunk: Self)
        ensures
            chunk@.code == seq![0u8, 1u8, 0u8],
            chunk@.constants == seq![Value::Int(32)],
            chunk@.lines == seq![1u32, 1u32, 1u32],
            chunk@.well_formed(),
    {
        let chunk = Chunk::new().write(0, 1).write(1, 1).write(0, 1);
        let (chunk, _) = chunk.add_constant(Value::Int(32));
        assert(chunk@.code =~= seq![0u8, 1u8, 0u8]);
        assert(chunk@.constants =~= seq![Value::Int(32)]);
        assert(chunk@.lines =~= seq![1u32, 1u32, 1u32]);
        chunk
    }
}

} // verus!
