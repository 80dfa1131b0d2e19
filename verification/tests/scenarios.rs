use stak::code::{decode, encode, Instruction, Operand, Program};
use stak::device::FixedBufferDevice;
use stak::primitive::small::{ADD, CLOSE, ID};
use stak::primitive::SmallPrimitiveSet;
use stak::vm::{Error, Number, Value, Vm};

fn create(size: usize) -> Vm<SmallPrimitiveSet<FixedBufferDevice>> {
    Vm::new(
        vec![Value::default(); size],
        SmallPrimitiveSet::new(FixedBufferDevice::new(16)),
    )
    .unwrap()
}

#[test]
fn add_two_constants() {
    let program = Program::new(
        vec![],
        vec![
            Instruction::Constant(1),
            Instruction::Constant(2),
            Instruction::Apply(Operand::Global(ADD), true),
        ],
    );
    let codes = encode(&program);
    let mut vm = create(64);

    vm.initialize(&codes).unwrap();

    assert_eq!(vm.run(1000), Ok(true));
    assert_eq!(vm.pop(), Ok(Number::new(3).into()));
    assert_eq!(vm.pop(), Err(Error::StackUnderflow));
}

#[test]
fn call_closure_without_arguments() {
    let program = Program::new(vec![], vec![
        Instruction::Constant(7),
        Instruction::Close(
            0,
            vec![
                Instruction::Constant(42),
                Instruction::Apply(Operand::Global(ID), true),
            ],
        ),
        Instruction::Apply(Operand::Global(CLOSE), false),
        Instruction::Store(Operand::Global(100)),
        Instruction::Constant(0),
        Instruction::Apply(Operand::Global(100), false),
        Instruction::Halt,
    ]);
    let codes = encode(&program);

    assert_eq!(format!("{:?}", decode(&codes).unwrap()), format!("{:?}", program));

    let mut vm = create(128);

    vm.initialize(&codes).unwrap();

    assert_eq!(vm.run(1000), Ok(true));
    assert_eq!(vm.pop(), Ok(Number::new(42).into()));
    assert_eq!(vm.pop(), Ok(Number::new(7).into()));
}

#[test]
fn run_within_limit() {
    let program = Program::new(
        vec![],
        vec![
            Instruction::Constant(1),
            Instruction::Constant(2),
            Instruction::Apply(Operand::Global(ADD), true),
        ],
    );
    let mut vm = create(64);

    vm.load(&program).unwrap();

    assert_eq!(vm.run(2), Ok(false));
    assert_eq!(vm.run(2), Ok(true));
    assert_eq!(vm.pop(), Ok(Number::new(3).into()));
}

#[test]
fn collect_while_holding_stack_top() {
    let mut vm = create(32);
    let zero: Value = Number::new(0).into();
    let cons = vm.allocate(Number::new(1).into(), Number::new(2).into()).unwrap();

    vm.push(cons.into()).unwrap();

    let before = vm.memory().allocation_start();

    for _ in 0..16 {
        vm.allocate(zero, zero).unwrap();
    }

    assert_ne!(vm.memory().allocation_start(), before);

    let held = vm.pop().unwrap();

    assert_eq!(vm.memory().car_value(held), Ok(Number::new(1).into()));
    assert_eq!(vm.memory().cdr_value(held), Ok(Number::new(2).into()));
}

#[test]
fn out_of_memory() {
    let mut vm = create(32);
    let mut result = Ok(());

    for index in 0..16 {
        result = vm.push(Number::new(index).into());

        if result.is_err() {
            break;
        }
    }

    assert_eq!(result, Err(Error::OutOfMemory));
}
