//! Renders a chunk as text, one line for each instruction.
//!
//! The disassembler reads a chunk and never runs it. It decodes with the
//! same `OpCode::from` and steps by the same `OpCode::width` as the
//! machine does, so the two cannot come to disagree about where an
//! instruction ends.

use crate::tools::text::{
    decimal,
    is_digit,
    lemma_count_char_absent,
    lemma_count_char_at_end,
    lemma_count_char_concat,
    lemma_decimal_digits,
    line_count,
    pad_left,
    pad_right,
    push_decimal,
    push_decimal_padded,
    push_text_padded,
    repeat,
};
use crate::vm::chunk::{byte_at, opcode_at, Chunk, ChunkView, OpCode};
use crate::vm::value::{constant_at, value_text, Value};
use vstd::prelude::*;
use vstd::string::*;

verus! {

/// The first line of a listing: the chunk's name between `==` marks.
pub open spec fn header_text(name: Seq<char>) -> Seq<char> {
    "== "@ + name + " =="@
}

/// An instruction without operands: its name and the end of the line.
pub open spec fn simple_text(name: Seq<char>) -> Seq<char> {
    name + "\n"@
}

/// An instruction that loads a constant: its name in a field of sixteen
/// characters, the operand in a field of four, and the constant it names
/// between quotes.
pub open spec fn constant_text(name: Seq<char>, operand: u8, value: Value) -> Seq<char> {
    pad_right(name, 16, ' ') + " "@ + pad_left(decimal(operand as nat), 4, ' ') + " '"@
        + value_text(value) + "'\n"@
}

/// A byte that stands for no instruction.
pub open spec fn unknown_text(byte: u8) -> Seq<char> {
    "Unknown opcode: "@ + decimal(byte as nat) + "\n"@
}

/// What follows the offset on the line of the instruction at `offset`.
pub open spec fn operation_text(chunk: ChunkView, offset: nat) -> Seq<char> {
    match opcode_at(chunk.code, offset as int) {
        OpCode::Return => simple_text("OP_RETURN"@),
        OpCode::Constant => {
            let operand = byte_at(chunk.code, (offset + 1) as int);
            constant_text("OP_CONSTANT"@, operand, constant_at(chunk.constants, operand as int))
        },
        OpCode::Invalid(byte) => unknown_text(byte),
    }
}

/// The line of the instruction at `offset`: the offset, zero-padded to four
/// digits, then the instruction.
pub open spec fn instruction_text(chunk: ChunkView, offset: nat) -> Seq<char> {
    pad_left(decimal(offset), 4, '0') + " "@ + operation_text(chunk, offset)
}

/// The offset of the instruction that follows the one at `offset`.
pub open spec fn next_offset(code: Seq<u8>, offset: nat) -> nat {
    offset + opcode_at(code, offset as int).spec_width()
}

/// The lines of all instructions from `offset` to the end of the code.
pub open spec fn body_text(chunk: ChunkView, offset: nat) -> Seq<char>
    decreases chunk.code.len() + 1 - offset,
{
    if offset >= chunk.code.len() {
        Seq::empty()
    } else {
        instruction_text(chunk, offset) + body_text(chunk, next_offset(chunk.code, offset))
    }
}

/// The whole listing of a chunk: the header line, then the body.
pub open spec fn chunk_text(chunk: ChunkView, name: Seq<char>) -> Seq<char> {
    header_text(name) + "\n"@ + body_text(chunk, 0)
}

/// How many instructions a walk over `code` decodes from `offset` to the
/// end, each step as wide as the instruction it decodes.
pub open spec fn instruction_count(code: Seq<u8>, offset: nat) -> nat
    decreases code.len() + 1 - offset,
{
    if offset >= code.len() {
        0
    } else {
        1 + instruction_count(code, next_offset(code, offset))
    }
}

/// Every step of a walk moves on, by one byte or two: the walk over any
/// code, corrupt or not, comes to an end.
pub proof fn lemma_walk_advances(code: Seq<u8>, offset: nat)
    ensures
        offset < next_offset(code, offset) <= offset + 2,
{
}

/// A numeral holds no end of line.
proof fn lemma_decimal_one_line(n: nat)
    ensures
        line_count(decimal(n)) == 0,
{
    lemma_decimal_digits(n);
    assert forall|i: int| 0 <= i < decimal(n).len() implies decimal(n)[i] != '\n' by {
        assert(is_digit(decimal(n)[i]));
    }
    lemma_count_char_absent(decimal(n), '\n');
}

/// A field filled with zeros or blanks holds no end of line beyond those
/// of the text in it.
proof fn lemma_padding_one_line(text: Seq<char>, width: int, fill: char)
    requires
        fill != '\n',
    ensures
        line_count(pad_left(text, width, fill)) == line_count(text),
        line_count(pad_right(text, width, fill)) == line_count(text),
{
    let room = repeat(fill, width - text.len());
    lemma_count_char_absent(room, '\n');
    lemma_count_char_concat(room, text, '\n');
    lemma_count_char_concat(text, room, '\n');
}

/// The text of a value holds no end of line.
proof fn lemma_value_one_line(value: Value)
    ensures
        line_count(value_text(value)) == 0,
{
    match value {
        Value::Int(i) => lemma_decimal_one_line(i as nat),
        Value::DoesNotExist => {
            reveal_strlit("Constant does not exist");
            lemma_count_char_absent("Constant does not exist"@, '\n');
        },
    }
}

/// The line of an instruction is one line: it holds one end of line.
pub proof fn lemma_instruction_is_one_line(chunk: ChunkView, offset: nat)
    ensures
        line_count(instruction_text(chunk, offset)) == 1,
{
    reveal_strlit("\n");
    reveal_strlit(" ");
    reveal_strlit(" '");
    reveal_strlit("'\n");
    reveal_strlit("OP_RETURN");
    reveal_strlit("OP_CONSTANT");
    reveal_strlit("Unknown opcode: ");
    let newline = "\n"@;
    lemma_count_char_at_end(newline, '\n');
    lemma_count_char_absent(" "@, '\n');
    lemma_count_char_absent(" '"@, '\n');
    lemma_count_char_absent("OP_RETURN"@, '\n');
    lemma_count_char_absent("OP_CONSTANT"@, '\n');
    lemma_count_char_absent("Unknown opcode: "@, '\n');
    let quote_end = "'\n"@;
    lemma_count_char_at_end(quote_end, '\n');
    let operation = operation_text(chunk, offset);
    assert(line_count(operation) == 1) by {
        match opcode_at(chunk.code, offset as int) {
            OpCode::Return => {
                lemma_count_char_concat("OP_RETURN"@, newline, '\n');
            },
            OpCode::Constant => {
                let operand = byte_at(chunk.code, (offset + 1) as int);
                let value = constant_at(chunk.constants, operand as int);
                let name = pad_right("OP_CONSTANT"@, 16, ' ');
                let index = pad_left(decimal(operand as nat), 4, ' ');
                lemma_padding_one_line("OP_CONSTANT"@, 16, ' ');
                lemma_decimal_one_line(operand as nat);
                lemma_padding_one_line(decimal(operand as nat), 4, ' ');
                lemma_value_one_line(value);
                lemma_count_char_concat(name, " "@, '\n');
                lemma_count_char_concat(name + " "@, index, '\n');
                lemma_count_char_concat(name + " "@ + index, " '"@, '\n');
                lemma_count_char_concat(name + " "@ + index + " '"@, value_text(value), '\n');
                lemma_count_char_concat(
                    name + " "@ + index + " '"@ + value_text(value),
                    quote_end,
                    '\n',
                );
            },
            OpCode::Invalid(byte) => {
                lemma_decimal_one_line(byte as nat);
                lemma_count_char_concat("Unknown opcode: "@, decimal(byte as nat), '\n');
                lemma_count_char_concat(
                    "Unknown opcode: "@ + decimal(byte as nat),
                    newline,
                    '\n',
                );
            },
        }
    }
    let place = pad_left(decimal(offset), 4, '0');
    lemma_decimal_one_line(offset);
    lemma_padding_one_line(decimal(offset), 4, '0');
    lemma_count_char_concat(place, " "@, '\n');
    lemma_count_char_concat(place + " "@, operation, '\n');
}

/// The body of a listing has one line for each instruction that the walk
/// over the code decodes.
pub proof fn lemma_body_line_count(chunk: ChunkView, offset: nat)
    ensures
        line_count(body_text(chunk, offset)) == instruction_count(chunk.code, offset),
    decreases chunk.code.len() + 1 - offset,
{
    if offset < chunk.code.len() {
        let next = next_offset(chunk.code, offset);
        lemma_instruction_is_one_line(chunk, offset);
        lemma_body_line_count(chunk, next);
        lemma_count_char_concat(instruction_text(chunk, offset), body_text(chunk, next), '\n');
    }
}

/// A listing has the lines of its header, which is one line unless the
/// name itself holds ends of lines, and one line for each instruction.
pub proof fn lemma_listing_line_count(chunk: ChunkView, name: Seq<char>)
    ensures
        line_count(chunk_text(chunk, name)) == line_count(name) + 1 + instruction_count(
            chunk.code,
            0,
        ),
{
    reveal_strlit("\n");
    reveal_strlit("== ");
    reveal_strlit(" ==");
    let newline = "\n"@;
    lemma_count_char_at_end(newline, '\n');
    lemma_count_char_absent("== "@, '\n');
    lemma_count_char_absent(" =="@, '\n');
    lemma_count_char_concat("== "@, name, '\n');
    lemma_count_char_concat("== "@ + name, " =="@, '\n');
    lemma_count_char_concat(header_text(name), newline, '\n');
    lemma_body_line_count(chunk, 0);
    lemma_count_char_concat(header_text(name) + newline, body_text(chunk, 0), '\n');
}

/// Disassembles a chunk into a listing that a person can read: a header
/// with `name`, then one line for each instruction.
pub fn disassemble_chunk(chunk: &Chunk, name: &str) -> (listing: String)
    ensures
        listing@ == chunk_text(chunk@, name@),
{
    let mut listing = chunk_header(name);
    listing.append("\n");
    let body = chunk_body(chunk, 0);
    listing.append(body.as_str());
    listing
}

/// The header line of a listing, without the end of the line.
pub fn chunk_header(name: &str) -> (header: String)
    ensures
        header@ == header_text(name@),
{
    let mut header = String::new();
    header.append("== ");
    header.append(name);
    header.append(" ==");
    assert(header@ =~= header_text(name@));
    header
}

/// The lines of all instructions from `offset` to the end of the code.
pub fn chunk_body(chunk: &Chunk, offset: usize) -> (body: String)
    ensures
        body@ == body_text(chunk@, offset as nat),
{
    proof {
        use_type_invariant(chunk);
    }
    let size = chunk.size();
    let mut body = String::new();
    let mut current: usize = offset;
    while current < size
        invariant
            size == chunk@.code.len(),
            chunk@.well_formed(),
            offset <= current,
            body@ + body_text(chunk@, current as nat) == body_text(chunk@, offset as nat),
        decreases size + 1 - current,
    {
        let (line, next) = disassemble_instruction(chunk, current);
        let ghost before = body@;
        body.append(line.as_str());
        assert(body@ + body_text(chunk@, next as nat) =~= before + body_text(
            chunk@,
            current as nat,
        ));
        current = next;
    }
    assert(body@ =~= body_text(chunk@, offset as nat));
    body
}

/// The line of the instruction at `offset`, and the offset of the
/// instruction that follows it.
pub fn disassemble_instruction(chunk: &Chunk, offset: usize) -> (rendered: (String, usize))
    requires
        offset < usize::MAX,
    ensures
        rendered.0@ == instruction_text(chunk@, offset as nat),
        rendered.1 == next_offset(chunk@.code, offset as nat),
        rendered.1 > offset,
{
    proof {
        use_type_invariant(chunk);
    }
    let line = instruction_line(chunk, offset);
    let width = OpCode::from(chunk.byte_at(offset)).width();
    (line, offset + width)
}

/// The line of the instruction at `offset`. This is what the machine
/// writes when it traces a step.
pub fn instruction_line(chunk: &Chunk, offset: usize) -> (line: String)
    ensures
        line@ == instruction_text(chunk@, offset as nat),
{
    proof {
        use_type_invariant(chunk);
    }
    let operation = match OpCode::from(chunk.byte_at(offset)) {
        OpCode::Return => simple_instruction("OP_RETURN", offset).0,
        OpCode::Constant => constant_instruction("OP_CONSTANT", chunk, offset).0,
        OpCode::Invalid(byte) => {
            let mut text = String::new();
            text.append("Unknown opcode: ");
            push_decimal(&mut text, byte as u64);
            text.append("\n");
            assert(text@ =~= unknown_text(byte));
            text
        },
    };
    let mut line = String::new();
    proof {
        reveal_strlit("0");
    }
    push_decimal_padded(&mut line, offset as u64, 4, "0");
    line.append(" ");
    line.append(operation.as_str());
    assert(line@ =~= instruction_text(chunk@, offset as nat));
    line
}

/// The text of an instruction without operands, and the offset behind it.
pub fn simple_instruction(text: &str, offset: usize) -> (rendered: (String, usize))
    requires
        offset < usize::MAX,
    ensures
        rendered.0@ == simple_text(text@),
        rendered.1 == offset + 1,
{
    let mut line = String::new();
    line.append(text);
    line.append("\n");
    assert(line@ =~= simple_text(text@));
    (line, offset + 1)
}

/// The text of an instruction that loads a constant, and the offset behind
/// its operand.
pub fn constant_instruction(text: &str, chunk: &Chunk, offset: usize) -> (rendered: (
    String,
    usize,
))
    requires
        offset + 2 <= usize::MAX,
    ensures
        rendered.0@ == constant_text(
            text@,
            byte_at(chunk@.code, offset + 1),
            constant_at(chunk@.constants, byte_at(chunk@.code, offset + 1) as int),
        ),
        rendered.1 == offset + 2,
{
    let constant = chunk.byte_at(offset + 1);
    let mut line = String::new();
    proof {
        reveal_strlit(" ");
    }
    push_text_padded(&mut line, text, 16, " ");
    line.append(" ");
    push_decimal_padded(&mut line, constant as u64, 4, " ");
    line.append(" '");
    chunk.const_val(constant).push_text(&mut line);
    line.append("'\n");
    assert(line@ =~= constant_text(
        text@,
        constant,
        constant_at(chunk@.constants, constant as int),
    ));
    (line, offset + 2)
}

} // verus!
