//! The virtual machine and the data it runs on.
//!
//! A machine reads a chunk and never changes it. It owns an instruction
//! pointer and a value stack, and takes one instruction per step until it
//! halts (a `Return` was decoded) or faults (a byte that stands for no
//! instruction was decoded). What a step does is said once, by
//! `Machine::step`, over plain sequences; the executable `VM` is proved to
//! do exactly that.
//!
//! The value stack is left as it is when the machine stops: after a halt
//! it holds every constant that was loaded, oldest first, and it can be
//! read with `VM::stack`. The instruction pointer stays on the instruction
//! that stopped the machine.

pub mod chunk;
pub mod value;

use crate::tools::disassembler::{
    instruction_line,
    instruction_text,
    lemma_instruction_is_one_line,
    next_offset,
};
use crate::tools::text::{lemma_count_char_concat, line_count};
use crate::vm::chunk::{byte_at, opcode_at, Chunk, ChunkView, OpCode, OUT_OF_RANGE_BYTE};
use crate::vm::value::{constant_at, Value};
use vstd::prelude::*;
use vstd::string::*;

verus! {

/// Why a run failed.
#[derive(PartialEq, Eq, Debug, Clone, Copy, Structural)]
pub enum VMError {
    /// The chunk is malformed: the byte `byte`, found at `offset` where an
    /// instruction was expected, stands for no instruction.
    CompileError { byte: u8, offset: usize },
    /// An instruction could not be carried out. No instruction of the
    /// present set can fail; the kind is kept for those that will.
    RuntimeError,
}

/// How a run ended.
pub type VMResult = Result<(), VMError>;

/// Where a machine stands in its life.
#[derive(PartialEq, Eq, Debug, Clone, Copy, Structural)]
pub enum Status {
    /// Freshly made: nothing has been decoded yet.
    Ready,
    /// In the middle of a run.
    Running,
    /// Stopped by a `Return`.
    Halted,
    /// Stopped by an error.
    Faulted(VMError),
}

/// The state of a machine, as plain values.
pub struct Machine {
    /// The offset of the instruction that is decoded next.
    pub ip: nat,
    /// The value stack, oldest value first.
    pub stack: Seq<Value>,
    /// Where the machine stands in its life.
    pub status: Status,
}

impl Machine {
    /// A fresh machine: at offset 0, with an empty stack.
    pub open spec fn initial() -> Machine {
        Machine { ip: 0, stack: Seq::empty(), status: Status::Ready }
    }

    /// A machine that has halted or faulted takes no further step.
    pub open spec fn is_terminal(self) -> bool {
        self.status is Halted || self.status is Faulted
    }

    /// The machine after one step on `chunk`.
    ///
    /// A machine that has stopped stays as it is. Otherwise the byte at the
    /// instruction pointer is decoded: `Return` halts; `Constant` pushes
    /// the constant that its operand names and moves on behind the
    /// operand; a byte that stands for no instruction faults with that
    /// byte and its offset. A read beyond the code gives such a byte, so
    /// running off the end faults.
    pub open spec fn step(self, chunk: ChunkView) -> Machine {
        if self.is_terminal() {
            self
        } else {
            let op = opcode_at(chunk.code, self.ip as int);
            match op {
                OpCode::Return => Machine { status: Status::Halted, ..self },
                OpCode::Constant => Machine {
                    ip: self.ip + op.spec_width(),
                    stack: self.stack.push(
                        constant_at(
                            chunk.constants,
                            byte_at(chunk.code, (self.ip + 1) as int) as int,
                        ),
                    ),
                    status: Status::Running,
                },
                OpCode::Invalid(byte) => Machine {
                    status: Status::Faulted(
                        VMError::CompileError { byte, offset: self.ip as usize },
                    ),
                    ..self
                },
            }
        }
    }

    /// An upper bound on the steps that the machine still takes on
    /// `chunk`: it falls with every step of a machine that has not
    /// stopped.
    pub open spec fn steps_left(self, chunk: ChunkView) -> nat {
        if self.is_terminal() {
            0
        } else if self.ip >= chunk.code.len() {
            1
        } else {
            (chunk.code.len() - self.ip + 2) as nat
        }
    }

    /// The machine after it has run on `chunk` until it stopped.
    pub open spec fn run(self, chunk: ChunkView) -> Machine
        decreases self.steps_left(chunk),
    {
        if self.is_terminal() {
            self
        } else {
            self.step(chunk).run(chunk)
        }
    }

    /// How many steps the machine takes on `chunk` until it has stopped.
    pub open spec fn steps(self, chunk: ChunkView) -> nat
        decreases self.steps_left(chunk),
    {
        if self.is_terminal() {
            0
        } else {
            self.step(chunk).steps(chunk) + 1
        }
    }

    /// What a traced run on `chunk` writes from here on: the line of each
    /// instruction, written before the instruction is carried out.
    pub open spec fn trace(self, chunk: ChunkView) -> Seq<char>
        decreases self.steps_left(chunk),
    {
        if self.is_terminal() {
            Seq::empty()
        } else {
            instruction_text(chunk, self.ip) + self.step(chunk).trace(chunk)
        }
    }
}

/// Every step of a machine that has not stopped brings it closer to
/// stopping.
pub proof fn lemma_step_counts_down(machine: Machine, chunk: ChunkView)
    requires
        !machine.is_terminal(),
    ensures
        machine.step(chunk).steps_left(chunk) < machine.steps_left(chunk),
{
}

/// A run always ends, halted or faulted, whatever the chunk holds.
pub proof fn lemma_run_stops(machine: Machine, chunk: ChunkView)
    ensures
        machine.run(chunk).is_terminal(),
    decreases machine.steps_left(chunk),
{
    if !machine.is_terminal() {
        lemma_run_stops(machine.step(chunk), chunk);
    }
}

/// A step never moves the instruction pointer back and never takes a
/// value off the stack.
pub proof fn lemma_step_moves_on(machine: Machine, chunk: ChunkView)
    ensures
        machine.ip <= machine.step(chunk).ip <= machine.ip + 2,
        machine.stack.is_prefix_of(machine.step(chunk).stack),
{
    let next = machine.step(chunk);
    assert(next.stack.subrange(0, machine.stack.len() as int) =~= machine.stack);
}

/// A traced run writes one line for each step it takes.
pub proof fn lemma_trace_line_count(machine: Machine, chunk: ChunkView)
    ensures
        line_count(machine.trace(chunk)) == machine.steps(chunk),
    decreases machine.steps_left(chunk),
{
    if !machine.is_terminal() {
        let next = machine.step(chunk);
        lemma_instruction_is_one_line(chunk, machine.ip);
        lemma_trace_line_count(next, chunk);
        lemma_count_char_concat(instruction_text(chunk, machine.ip), next.trace(chunk), '\n');
    }
}

/// The machine and the disassembler agree on where instructions begin: a
/// step that does not stop the machine moves the instruction pointer to
/// the offset at which the disassembler goes on.
pub proof fn lemma_step_follows_the_listing(machine: Machine, chunk: ChunkView)
    requires
        !machine.step(chunk).is_terminal(),
    ensures
        machine.step(chunk).ip == next_offset(chunk.code, machine.ip),
{
}

/// A machine that has run off the end of the code faults on its next
/// step, with the out-of-range byte and the offset it stands at.
pub proof fn lemma_step_off_the_end(machine: Machine, chunk: ChunkView)
    requires
        !machine.is_terminal(),
        machine.ip >= chunk.code.len(),
    ensures
        machine.step(chunk) == (Machine {
            status: Status::Faulted(
                VMError::CompileError { byte: OUT_OF_RANGE_BYTE, offset: machine.ip as usize },
            ),
            ..machine
        }),
{
}

/// A run that ends in a fault reports a compile error: no instruction of
/// the present set fails at run time.
pub proof fn lemma_fault_is_compile_error(machine: Machine, chunk: ChunkView)
    requires
        !machine.is_terminal(),
    ensures
        machine.run(chunk).status matches Status::Faulted(error) ==> error is CompileError,
    decreases machine.steps_left(chunk),
{
    let next = machine.step(chunk);
    if !next.is_terminal() {
        lemma_fault_is_compile_error(next, chunk);
    } else {
        assert(next.run(chunk) == next);
    }
}

/// What a run that ended in `status` reports: the error of a fault, and
/// success otherwise.
pub open spec fn outcome(status: Status) -> VMResult {
    match status {
        Status::Faulted(error) => Err(error),
        _ => Ok(()),
    }
}

/// The virtual machine: a chunk to read, an instruction pointer, a value
/// stack, and the text that tracing has written.
pub struct VM<'a> {
    chunk: &'a Chunk,
    ip: usize,
    stack: Vec<Value>,
    status: Status,
    trace: String,
}

impl<'a> View for VM<'a> {
    type V = Machine;

    closed spec fn view(&self) -> Machine {
        Machine { ip: self.ip as nat, stack: self.stack@, status: self.status }
    }
}

impl<'a> VM<'a> {
    /// The chunk that the machine runs.
    pub closed spec fn program(&self) -> ChunkView {
        self.chunk@
    }

    /// What tracing has written so far.
    pub closed spec fn traced(&self) -> Seq<char> {
        self.trace@
    }

    /// A fresh machine for `chunk`.
    pub fn new(chunk: &'a Chunk) -> (vm: Self)
        ensures
            vm@ == Machine::initial(),
            vm.program() == chunk@,
            vm.traced() == Seq::<char>::empty(),
    {
        VM { chunk, ip: 0, stack: Vec::new(), status: Status::Ready, trace: String::new() }
    }

    /// Takes one step. With `trace_enabled`, the line of the instruction is
    /// first added to the trace; the state that the step leaves does not
    /// depend on it.
    pub fn step(&mut self, trace_enabled: bool)
        ensures
            final(self)@ == old(self)@.step(old(self).program()),
            final(self).program() == old(self).program(),
            final(self).traced() == old(self).traced() + (if trace_enabled && !old(
                self,
            )@.is_terminal() {
                instruction_text(old(self).program(), old(self)@.ip)
            } else {
                Seq::empty()
            }),
    {
        proof {
            use_type_invariant(self.chunk);
        }
        match self.status {
            Status::Halted | Status::Faulted(_) => {
                assert(self.trace@ =~= old(self).trace@ + Seq::<char>::empty());
                return ;
            },
            _ => {},
        }
        if trace_enabled {
            let line = instruction_line(self.chunk, self.ip);
            self.trace.append(line.as_str());
        } else {
            assert(self.trace@ =~= old(self).trace@ + Seq::<char>::empty());
        }
        let op = OpCode::from(self.chunk.byte_at(self.ip));
        match op {
            OpCode::Return => {
                self.status = Status::Halted;
            },
            OpCode::Constant => {
                let constant = self.chunk.read_const(self.ip + 1);
                self.stack.push(constant);
                self.ip = self.ip + op.width();
                self.status = Status::Running;
            },
            OpCode::Invalid(byte) => {
                self.status = Status::Faulted(VMError::CompileError { byte, offset: self.ip });
            },
        }
    }

    /// Runs until the machine stops, and reports how it ended: `Ok` after a
    /// halt, the error after a fault. With `trace_enabled`, the line of
    /// each instruction is added to the trace before the instruction is
    /// carried out; the state that the run leaves does not depend on it.
    pub fn run(&mut self, trace_enabled: bool) -> (result: VMResult)
        ensures
            final(self)@ == old(self)@.run(old(self).program()),
            final(self)@.is_terminal(),
            final(self).program() == old(self).program(),
            result == outcome(final(self)@.status),
            final(self).traced() == old(self).traced() + (if trace_enabled {
                old(self)@.trace(old(self).program())
            } else {
                Seq::empty()
            }),
    {
        assert(self.trace@ =~= old(self).trace@ + Seq::<char>::empty());
        loop
            invariant
                self.program() == old(self).program(),
                self@.run(self.program()) == old(self)@.run(old(self).program()),
                trace_enabled ==> self.traced() + self@.trace(self.program()) == old(
                    self,
                ).traced() + old(self)@.trace(old(self).program()),
                !trace_enabled ==> self.traced() == old(self).traced(),
            decreases self@.steps_left(self.program()),
        {
            match self.status {
                Status::Halted => {
                    assert(self.trace@ =~= self.trace@ + Seq::<char>::empty());
                    return Ok(());
                },
                Status::Faulted(error) => {
                    assert(self.trace@ =~= self.trace@ + Seq::<char>::empty());
                    return Err(error);
                },
                _ => {},
            }
            let ghost before = *self;
            self.step(trace_enabled);
            proof {
                if trace_enabled {
                    assert(self.traced() + self@.trace(self.program()) =~= before.traced()
                        + before@.trace(before.program()));
                }
            }
        }
    }

    /// The offset of the instruction that is decoded next, or of the
    /// instruction that stopped the machine.
    pub fn ip(&self) -> (ip: usize)
        ensures
            ip == self@.ip,
    {
        self.ip
    }

    /// The value stack, oldest value first.
    pub fn stack(&self) -> (stack: &Vec<Value>)
        ensures
            stack@ == self@.stack,
    {
        &self.stack
    }

    /// Where the machine stands in its life.
    pub fn status(&self) -> (status: Status)
        ensures
            status == self@.status,
    {
        self.status
    }

    /// What tracing has written so far.
    pub fn trace(&self) -> (text: &str)
        ensures
            text@ == self.traced(),
    {
        self.trace.as_str()
    }
}

} // verus!
