use crayne_lang::vm::chunk::Chunk;
use crayne_lang::vm::value::Value;
use crayne_lang::vm::{Status, VMError, VMResult, VM};

fn run(chunk: &Chunk, trace_enabled: bool) -> VMResult {
    VM::new(chunk).run(trace_enabled)
}

fn chunk_of(code: &[u8], constants: &[Value]) -> Chunk {
    let mut chunk = Chunk::new();
    for byte in code {
        chunk = chunk.write(*byte, 1);
    }
    for value in constants {
        chunk = chunk.add_constant(*value).0;
    }
    chunk
}

#[test]
fn lone_return_halts_with_an_empty_stack() {
    let chunk = chunk_of(&[0], &[]);
    let mut vm = VM::new(&chunk);

    assert_eq!(Ok(()), vm.run(false));
    assert_eq!(Status::Halted, vm.status());
    assert!(vm.stack().is_empty());
    assert_eq!(0, vm.ip());
    assert_eq!(Ok(()), run(&chunk, false));
}

#[test]
fn constant_then_return_halts_with_the_constant_on_the_stack() {
    let chunk = chunk_of(&[1, 0, 0], &[Value::Int(32)]);
    let mut vm = VM::new(&chunk);

    assert_eq!(Ok(()), vm.run(false));
    assert_eq!(Status::Halted, vm.status());
    assert_eq!(&vec![Value::Int(32)], vm.stack());
    assert_eq!(2, vm.ip());
}

#[test]
fn constant_without_return_runs_off_the_end_and_faults() {
    let chunk = chunk_of(&[1, 0], &[Value::Int(32)]);
    let mut vm = VM::new(&chunk);
    let fault = VMError::CompileError { byte: 255, offset: 2 };

    assert_eq!(Err(fault), vm.run(false));
    assert_eq!(Status::Faulted(fault), vm.status());
    assert_eq!(&vec![Value::Int(32)], vm.stack());
}

#[test]
fn undefined_opcode_faults_with_byte_and_offset() {
    let chunk = chunk_of(&[255], &[]);

    assert_eq!(Err(VMError::CompileError { byte: 255, offset: 0 }), run(&chunk, false));
    assert_eq!(Err(VMError::CompileError { byte: 255, offset: 0 }), run(&chunk, true));
}

#[test]
fn undefined_opcode_behind_constants_names_its_offset() {
    let chunk = chunk_of(&[1, 0, 1, 1, 7, 0], &[Value::Int(1), Value::Int(2)]);
    let mut vm = VM::new(&chunk);

    assert_eq!(Err(VMError::CompileError { byte: 7, offset: 4 }), vm.run(false));
    assert_eq!(&vec![Value::Int(1), Value::Int(2)], vm.stack());
    assert_eq!(4, vm.ip());
}

#[test]
fn empty_chunk_faults_at_once() {
    let chunk = Chunk::new();

    assert_eq!(Err(VMError::CompileError { byte: 255, offset: 0 }), run(&chunk, false));
}

#[test]
fn constant_with_operand_beyond_the_code_pushes_the_missing_constant() {
    let chunk = chunk_of(&[1], &[Value::Int(5)]);
    let mut vm = VM::new(&chunk);

    assert_eq!(Err(VMError::CompileError { byte: 255, offset: 2 }), vm.run(false));
    assert_eq!(&vec![Value::DoesNotExist], vm.stack());
}

#[test]
fn steps_can_be_driven_from_outside() {
    let chunk = chunk_of(&[1, 0, 1, 0, 0], &[Value::Int(3)]);
    let mut vm = VM::new(&chunk);

    assert_eq!(Status::Ready, vm.status());
    vm.step(false);
    assert_eq!(Status::Running, vm.status());
    assert_eq!(2, vm.ip());
    assert_eq!(&vec![Value::Int(3)], vm.stack());
    vm.step(false);
    assert_eq!(4, vm.ip());
    assert_eq!(&vec![Value::Int(3), Value::Int(3)], vm.stack());
    vm.step(false);
    assert_eq!(Status::Halted, vm.status());
    assert_eq!(4, vm.ip());
    vm.step(false);
    assert_eq!(Status::Halted, vm.status());
    assert_eq!(4, vm.ip());
    assert_eq!(&vec![Value::Int(3), Value::Int(3)], vm.stack());
}

#[test]
fn run_on_a_stopped_machine_reports_the_same_again() {
    let chunk = chunk_of(&[9], &[]);
    let mut vm = VM::new(&chunk);
    let first = vm.run(false);

    assert_eq!(first, vm.run(false));
    assert_eq!(Err(VMError::CompileError { byte: 9, offset: 0 }), first);
}

#[test]
fn tracing_writes_each_instruction_before_it_runs() {
    let chunk = chunk_of(&[1, 0, 0], &[Value::Int(32)]);
    let mut vm = VM::new(&chunk);

    assert_eq!(Ok(()), vm.run(true));
    assert_eq!("0000 OP_CONSTANT         0 '32'\n0002 OP_RETURN\n", vm.trace());
}

#[test]
fn tracing_does_not_change_the_run() {
    let chunk = chunk_of(&[1, 0, 1, 1, 200, 0], &[Value::Int(32)]);
    let mut plain = VM::new(&chunk);
    let mut traced = VM::new(&chunk);

    assert_eq!(plain.run(false), traced.run(true));
    assert_eq!(plain.stack(), traced.stack());
    assert_eq!(plain.ip(), traced.ip());
    assert_eq!(plain.status(), traced.status());
    assert_eq!("", plain.trace());
    assert_eq!(
        "0000 OP_CONSTANT         0 '32'\n\
         0002 OP_CONSTANT         1 'Constant does not exist'\n\
         0004 Unknown opcode: 200\n",
        traced.trace()
    );
}

#[test]
fn run_is_deterministic() {
    let chunk = chunk_of(&[1, 0, 0], &[Value::Int(32)]);

    assert_eq!(run(&chunk, false), run(&chunk, false));
    assert_eq!(Ok(()), run(&chunk, false));
}
