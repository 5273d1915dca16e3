use clox::chunk::{Chunk, Opcode};
use clox::fault::Fault;
use clox::vm::{BinaryOp, Step, VM, STACK_MAX};

fn run(vm: &mut VM<f64>) -> Result<f64, Fault> {
    loop {
        match vm.step()? {
            Step::Continue => {}
            Step::Negate(x) => vm.push(-x)?,
            Step::Binary(op, l, r) => {
                let v = match op {
                    BinaryOp::Add => l + r,
                    BinaryOp::Subtract => l - r,
                    BinaryOp::Multiply => l * r,
                    BinaryOp::Divide => l / r,
                };
                vm.push(v)?
            }
            Step::Return(v) => return Ok(v),
        }
    }
}

fn push_constant(chunk: &mut Chunk<f64>, value: f64, line: i32) {
    let idx = Chunk::add_constant(chunk, value);
    Chunk::write_chunk(chunk, Opcode::OpConstant.to_byte(), line);
    Chunk::write_chunk(chunk, idx, line);
}

fn op(chunk: &mut Chunk<f64>, opcode: Opcode) {
    Chunk::write_chunk(chunk, opcode.to_byte(), 1);
}

#[test]
fn arithmetic_matches_direct_computation() {
    let mut chunk: Chunk<f64> = Chunk::new();
    push_constant(&mut chunk, 1.2, 123);
    push_constant(&mut chunk, 3.4, 123);
    op(&mut chunk, Opcode::OpAdd);
    push_constant(&mut chunk, 5.6, 123);
    op(&mut chunk, Opcode::OpDivide);
    op(&mut chunk, Opcode::OpNegate);
    op(&mut chunk, Opcode::OpReturn);
    let mut vm = VM::new(&chunk);
    assert_eq!(run(&mut vm), Ok(-((1.2 + 3.4) / 5.6)));
    assert!(vm.stack().is_empty());
}

#[test]
fn right_operand_is_the_later_push() {
    let mut chunk: Chunk<f64> = Chunk::new();
    push_constant(&mut chunk, 10.0, 1);
    push_constant(&mut chunk, 4.0, 1);
    op(&mut chunk, Opcode::OpSubtract);
    push_constant(&mut chunk, 2.0, 1);
    op(&mut chunk, Opcode::OpMultiply);
    op(&mut chunk, Opcode::OpReturn);
    let mut vm = VM::new(&chunk);
    assert_eq!(run(&mut vm), Ok((10.0 - 4.0) * 2.0));
}

#[test]
fn division_by_zero_is_not_a_fault() {
    let mut chunk: Chunk<f64> = Chunk::new();
    push_constant(&mut chunk, 1.0, 1);
    push_constant(&mut chunk, 0.0, 1);
    op(&mut chunk, Opcode::OpDivide);
    op(&mut chunk, Opcode::OpReturn);
    let mut vm = VM::new(&chunk);
    assert_eq!(run(&mut vm), Ok(f64::INFINITY));
}

#[test]
fn long_constant_loads_like_short() {
    let mut chunk: Chunk<f64> = Chunk::new();
    let idx = Chunk::add_constant(&mut chunk, 8.5);
    Chunk::write_chunk(&mut chunk, Opcode::OpConstantLong.to_byte(), 1);
    Chunk::write_chunk(&mut chunk, idx, 1);
    op(&mut chunk, Opcode::OpReturn);
    let mut vm = VM::new(&chunk);
    assert_eq!(run(&mut vm), Ok(8.5));
}

#[test]
fn stack_effect_of_each_opcode() {
    let mut chunk: Chunk<f64> = Chunk::new();
    push_constant(&mut chunk, 2.0, 1);
    push_constant(&mut chunk, 3.0, 1);
    op(&mut chunk, Opcode::OpNegate);
    op(&mut chunk, Opcode::OpAdd);
    op(&mut chunk, Opcode::OpReturn);
    let mut vm = VM::new(&chunk);

    assert_eq!(vm.step(), Ok(Step::Continue));
    assert_eq!(vm.stack().len(), 1);
    assert_eq!(vm.step(), Ok(Step::Continue));
    assert_eq!(vm.stack(), &vec![2.0, 3.0]);
    assert_eq!(vm.ip(), 4);

    assert_eq!(vm.step(), Ok(Step::Negate(3.0)));
    vm.push(-3.0).unwrap();
    assert_eq!(vm.stack().len(), 2);

    assert_eq!(vm.step(), Ok(Step::Binary(BinaryOp::Add, 2.0, -3.0)));
    vm.push(-1.0).unwrap();
    assert_eq!(vm.stack().len(), 1);

    assert_eq!(vm.step(), Ok(Step::Return(-1.0)));
    assert_eq!(vm.stack().len(), 0);
    assert_eq!(vm.ip(), 7);
}

#[test]
fn pop_on_empty_stack_is_a_fault() {
    let chunk: Chunk<f64> = Chunk::new();
    let mut vm = VM::new(&chunk);
    assert_eq!(vm.pop(), Err(Fault::StackUnderflow));
    vm.push(4.0).unwrap();
    assert_eq!(vm.pop(), Ok(4.0));
    assert_eq!(vm.pop(), Err(Fault::StackUnderflow));
}

#[test]
fn return_on_empty_stack_is_a_fault() {
    let mut chunk: Chunk<f64> = Chunk::new();
    op(&mut chunk, Opcode::OpReturn);
    let mut vm = VM::new(&chunk);
    assert_eq!(vm.step(), Err(Fault::StackUnderflow));
    assert_eq!(vm.ip(), 0);
}

#[test]
fn binary_op_with_one_operand_is_a_fault() {
    let mut chunk: Chunk<f64> = Chunk::new();
    push_constant(&mut chunk, 1.0, 1);
    op(&mut chunk, Opcode::OpMultiply);
    let mut vm = VM::new(&chunk);
    assert_eq!(vm.step(), Ok(Step::Continue));
    assert_eq!(vm.step(), Err(Fault::StackUnderflow));
    assert_eq!(vm.stack(), &vec![1.0]);
}

#[test]
fn unknown_opcode_stops_the_run() {
    let mut chunk: Chunk<f64> = Chunk::new();
    Chunk::write_chunk(&mut chunk, 200, 1);
    let mut vm = VM::new(&chunk);
    assert_eq!(run(&mut vm), Err(Fault::UnknownOpcode(200)));
}

#[test]
fn code_without_return_is_exhausted() {
    let mut chunk: Chunk<f64> = Chunk::new();
    push_constant(&mut chunk, 1.0, 1);
    let mut vm = VM::new(&chunk);
    assert_eq!(run(&mut vm), Err(Fault::CodeExhausted));
}

#[test]
fn bad_constant_operands_are_faults() {
    let mut chunk: Chunk<f64> = Chunk::new();
    Chunk::write_chunk(&mut chunk, Opcode::OpConstant.to_byte(), 1);
    Chunk::write_chunk(&mut chunk, 0, 1);
    let mut vm = VM::new(&chunk);
    assert_eq!(vm.step(), Err(Fault::ConstantOutOfRange(0)));

    let mut short: Chunk<f64> = Chunk::new();
    Chunk::add_constant(&mut short, 1.0);
    Chunk::write_chunk(&mut short, Opcode::OpConstant.to_byte(), 1);
    let mut vm = VM::new(&short);
    assert_eq!(vm.step(), Err(Fault::MissingOperand));
}

#[test]
fn stack_overflow_is_a_fault() {
    let mut chunk: Chunk<f64> = Chunk::new();
    let idx = Chunk::add_constant(&mut chunk, 1.0);
    for _ in 0..(STACK_MAX + 1) {
        Chunk::write_chunk(&mut chunk, Opcode::OpConstant.to_byte(), 1);
        Chunk::write_chunk(&mut chunk, idx, 1);
    }
    let mut vm = VM::new(&chunk);
    for _ in 0..STACK_MAX {
        assert_eq!(vm.step(), Ok(Step::Continue));
    }
    assert_eq!(vm.step(), Err(Fault::StackOverflow));
    assert_eq!(vm.stack().len(), STACK_MAX);
    assert_eq!(vm.push(2.0), Err(Fault::StackOverflow));
}

#[test]
fn trace_shows_the_current_instruction() {
    let mut chunk: Chunk<f64> = Chunk::new();
    push_constant(&mut chunk, 1.2, 122);
    op(&mut chunk, Opcode::OpReturn);
    let mut vm = VM::new_with_debug(&chunk, true);
    assert!(vm.debug_trace_execution());
    let ins = vm.current_instruction().unwrap();
    assert_eq!(ins.render("1.2"), "0000  122 OP_CONSTANT         0 '1.2'");
    vm.step().unwrap();
    let ins = vm.current_instruction().unwrap();
    assert_eq!(ins.render(""), "0002    1 OP_RETURN");
    vm.step().unwrap();
    assert_eq!(vm.current_instruction(), Err(Fault::CodeExhausted));
}
