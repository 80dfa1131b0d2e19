use stak::code::{Instruction, Operand, Program};
use stak::device::{Device, DeviceError, FixedBufferDevice};
use stak::primitive::small::{
    ADD, ASSQ, CAR, CDR, CLOSE, CONS, DIVIDE, EQUAL, HALT, ID, IS_CONS, LESS_THAN, MEMQ, MULTIPLY, NULL,
    PAIR, POP, READ, REMAINDER, RIB, SET_CAR, SET_CDR, SKIP, SUBTRACT, TAG, TYPE, WRITE,
    WRITE_ERROR,
};
use stak::primitive::{CompositePrimitiveSet, SmallPrimitiveSet};
use stak::time::clock::jiffy;
use stak::time::primitive::CURRENT_JIFFY;
use stak::time::{Clock, LibcClock, Primitive, TimePrimitiveSet, VoidTime};
use stak::vm::{Error, Memory, Number, PrimitiveSet, Value, Vm};

type Machine = Vm<SmallPrimitiveSet<FixedBufferDevice>>;

fn number(number: u64) -> Value {
    Number::new(number).into()
}

fn machine(input: &[u8], capacity: usize) -> Machine {
    Vm::new(
        vec![Value::default(); 256],
        SmallPrimitiveSet::new(FixedBufferDevice::with_input(input.to_vec(), capacity)),
    )
    .unwrap()
}

fn create() -> Machine {
    machine(&[], 16)
}

fn operate(vm: &mut Machine, primitive: u64, arguments: &[Value]) -> Result<Value, Error> {
    for argument in arguments {
        vm.push(*argument).unwrap();
    }

    vm.operate_primitive(primitive)?;
    vm.pop()
}

fn binary(primitive: u64, x: u64, y: u64) -> Result<Value, Error> {
    operate(&mut create(), primitive, &[number(x), number(y)])
}

#[test]
fn add() {
    assert_eq!(binary(ADD, 1, 2), Ok(number(3)));
    assert_eq!(binary(ADD, u64::MAX, 2), Ok(number(1)));
}

#[test]
fn subtract() {
    assert_eq!(binary(SUBTRACT, 5, 2), Ok(number(3)));
    assert_eq!(binary(SUBTRACT, 2, 5), Ok(number(u64::MAX - 2)));
}

#[test]
fn multiply() {
    assert_eq!(binary(MULTIPLY, 6, 7), Ok(number(42)));
    assert_eq!(binary(MULTIPLY, 1 << 63, 2), Ok(number(0)));
}

#[test]
fn divide() {
    assert_eq!(binary(DIVIDE, 7, 2), Ok(number(3)));
    assert_eq!(binary(DIVIDE, 7, 0), Err(Error::DivisionByZero));
}

#[test]
fn remainder() {
    assert_eq!(binary(REMAINDER, 7, 2), Ok(number(1)));
    assert_eq!(binary(REMAINDER, 7, 0), Err(Error::DivisionByZero));
}

#[test]
fn less_than() {
    let vm = create();

    assert_eq!(binary(LESS_THAN, 1, 2), Ok(vm.memory().boolean(true).into()));
    assert_eq!(binary(LESS_THAN, 2, 2), Ok(vm.memory().boolean(false).into()));
}

#[test]
fn numbers_expected() {
    let mut vm = create();
    let null = vm.memory().null();

    assert_eq!(
        operate(&mut vm, ADD, &[number(1), null.into()]),
        Err(Error::NumberExpected)
    );
    assert_eq!(
        operate(&mut create(), LESS_THAN, &[null.into(), number(1)]),
        Err(Error::NumberExpected)
    );
}

#[test]
fn arguments_missing() {
    assert_eq!(operate(&mut create(), ADD, &[]), Err(Error::StackUnderflow));
    assert_eq!(
        operate(&mut create(), ADD, &[number(1)]),
        Err(Error::StackUnderflow)
    );
    assert_eq!(operate(&mut create(), CAR, &[]), Err(Error::StackUnderflow));
    assert_eq!(operate(&mut create(), POP, &[]), Err(Error::StackUnderflow));
}

#[test]
fn equal() {
    let mut vm = create();
    let yes: Value = vm.memory().boolean(true).into();
    let no: Value = vm.memory().boolean(false).into();
    let null: Value = vm.memory().null().into();
    let first = vm.allocate(number(1), number(2)).unwrap();
    let second = vm.allocate(number(1), number(2)).unwrap();

    assert_eq!(operate(&mut vm, EQUAL, &[number(1), number(1)]), Ok(yes));
    assert_eq!(operate(&mut vm, EQUAL, &[number(1), number(2)]), Ok(no));
    assert_eq!(operate(&mut vm, EQUAL, &[null, null]), Ok(yes));
    assert_eq!(operate(&mut vm, EQUAL, &[null, number(1)]), Ok(no));
    assert_eq!(
        operate(&mut vm, EQUAL, &[first.into(), first.into()]),
        Ok(yes)
    );
    assert_eq!(
        operate(&mut vm, EQUAL, &[first.into(), second.into()]),
        Ok(no)
    );
    assert_eq!(
        operate(&mut vm, EQUAL, &[first.into(), first.set_tag(1).into()]),
        Ok(no)
    );
}

#[test]
fn cons_car_and_cdr() {
    let mut vm = create();
    let cons = operate(&mut vm, CONS, &[number(1), number(2)]).unwrap();

    assert!(cons.is_cons());
    assert_eq!(operate(&mut vm, CAR, &[cons]), Ok(number(1)));
    assert_eq!(operate(&mut vm, CDR, &[cons]), Ok(number(2)));
    assert_eq!(operate(&mut vm, CAR, &[number(1)]), Err(Error::ConsExpected));
    assert_eq!(vm.pop(), Ok(number(1)));
    assert_eq!(vm.pop(), Err(Error::StackUnderflow));
}

#[test]
fn is_cons() {
    let mut vm = create();
    let null: Value = vm.memory().null().into();
    let yes: Value = vm.memory().boolean(true).into();
    let no: Value = vm.memory().boolean(false).into();

    assert_eq!(operate(&mut vm, IS_CONS, &[null]), Ok(yes));
    assert_eq!(operate(&mut vm, IS_CONS, &[number(1)]), Ok(no));
}

#[test]
fn rib_and_tags() {
    let mut vm = create();
    let null: Value = vm.memory().null().into();
    let rib = operate(&mut vm, RIB, &[null.set_tag(2), null, number(258 + 3)]).unwrap();

    assert_eq!(operate(&mut vm, CAR, &[rib]), Ok(null.set_tag(2)));
    assert_eq!(operate(&mut vm, CDR, &[rib]), Ok(null.set_tag(5)));
    assert_eq!(operate(&mut vm, TAG, &[rib]), Ok(number(5)));
    assert_eq!(operate(&mut vm, TYPE, &[rib]), Ok(number(2)));

    let plain = operate(&mut vm, CONS, &[number(1), number(2)]).unwrap();

    assert_eq!(operate(&mut vm, TAG, &[plain]), Ok(number(0)));
    assert_eq!(
        operate(&mut vm, RIB, &[null, null, null]),
        Err(Error::NumberExpected)
    );
}

#[test]
fn set_car_and_cdr() {
    let mut vm = create();
    let cons = operate(&mut vm, CONS, &[number(1), number(2)]).unwrap();

    assert_eq!(operate(&mut vm, SET_CAR, &[cons, number(3)]), Ok(number(3)));
    assert_eq!(operate(&mut vm, SET_CDR, &[cons, number(4)]), Ok(number(4)));
    assert_eq!(operate(&mut vm, CAR, &[cons]), Ok(number(3)));
    assert_eq!(operate(&mut vm, CDR, &[cons]), Ok(number(4)));
    assert_eq!(
        operate(&mut vm, SET_CAR, &[number(1), number(3)]),
        Err(Error::ConsExpected)
    );
}

#[test]
fn close() {
    let mut vm = create();

    vm.push(number(7)).unwrap();

    let environment = vm.memory().stack();
    let code = vm.allocate(number(0), vm.memory().null().into()).unwrap();
    let procedure = operate(&mut vm, CLOSE, &[code.into()]).unwrap();

    assert_eq!(vm.memory().car_value(procedure), Ok(code.into()));
    assert_eq!(vm.memory().cdr_value(procedure), Ok(environment.into()));
    assert_eq!(vm.pop(), Ok(number(7)));
}

#[test]
fn id_pop_and_skip() {
    let mut vm = create();

    assert_eq!(operate(&mut vm, ID, &[number(1)]), Ok(number(1)));
    assert_eq!(operate(&mut vm, POP, &[number(1), number(2)]), Ok(number(1)));
    assert_eq!(
        operate(&mut vm, SKIP, &[number(1), number(2), number(3)]),
        Ok(number(3))
    );
    assert_eq!(vm.pop(), Ok(number(1)));
}

#[test]
fn memq_and_assq() {
    let mut vm = create();
    let null = vm.memory().null();
    let no: Value = vm.memory().boolean(false).into();
    let first = vm.allocate(number(1), number(10)).unwrap();
    let second = vm.allocate(number(2), number(20)).unwrap();
    let rest = vm.allocate(second.into(), null.into()).unwrap();
    let list = vm.allocate(first.into(), rest.into()).unwrap();

    assert_eq!(
        operate(&mut vm, MEMQ, &[second.into(), list.into()]),
        Ok(rest.into())
    );
    assert_eq!(operate(&mut vm, MEMQ, &[number(3), list.into()]), Ok(no));
    assert_eq!(
        operate(&mut vm, ASSQ, &[number(2), list.into()]),
        Ok(second.into())
    );
    assert_eq!(operate(&mut vm, ASSQ, &[number(3), list.into()]), Ok(no));
    assert_eq!(
        operate(&mut vm, MEMQ, &[number(3), number(3)]),
        Err(Error::ConsExpected)
    );
}

#[test]
fn memq_in_cycle() {
    let mut vm = create();
    let no: Value = vm.memory().boolean(false).into();
    let list = vm.allocate(number(1), number(0)).unwrap();

    vm.memory.set_cdr(list, list.into());

    assert_eq!(operate(&mut vm, MEMQ, &[number(3), list.into()]), Ok(no));
}

#[test]
fn read() {
    let mut vm = machine(&[65, 66], 16);
    let no: Value = vm.memory().boolean(false).into();

    assert_eq!(operate(&mut vm, READ, &[]), Ok(number(65)));
    assert_eq!(operate(&mut vm, READ, &[]), Ok(number(66)));
    assert_eq!(operate(&mut vm, READ, &[]), Ok(no));
}

#[test]
fn write() {
    let mut vm = machine(&[], 2);

    assert_eq!(operate(&mut vm, WRITE, &[number(65)]), Ok(number(65)));
    assert_eq!(operate(&mut vm, WRITE, &[number(256 + 66)]), Ok(number(322)));
    assert_eq!(
        operate(&mut vm, WRITE_ERROR, &[number(67)]),
        Ok(number(67))
    );
    assert_eq!(vm.primitive_set.device().output(), &vec![65, 66]);
    assert_eq!(vm.primitive_set.device().error(), &vec![67]);
    assert_eq!(
        operate(&mut vm, WRITE, &[number(68)]),
        Err(Error::WriteOutput)
    );
    assert_eq!(vm.pop(), Ok(number(68)));

    let null = vm.memory().null();

    assert_eq!(
        operate(&mut vm, WRITE, &[null.into()]),
        Err(Error::NumberExpected)
    );
    vm.pop().unwrap();
    assert_eq!(operate(&mut vm, WRITE, &[]), Err(Error::StackUnderflow));
}

#[test]
fn write_error_fails() {
    let mut vm = machine(&[], 0);

    assert_eq!(
        operate(&mut vm, WRITE_ERROR, &[number(68)]),
        Err(Error::WriteError)
    );
}

struct BrokenDevice {}

impl Device for BrokenDevice {
    fn read(&mut self) -> Result<Option<u8>, DeviceError> {
        Err(DeviceError)
    }

    fn write(&mut self, _byte: u8) -> Result<(), DeviceError> {
        Err(DeviceError)
    }

    fn write_error(&mut self, _byte: u8) -> Result<(), DeviceError> {
        Err(DeviceError)
    }
}

#[test]
fn read_fails() {
    let mut vm = Vm::new(
        vec![Value::default(); 64],
        SmallPrimitiveSet::new(BrokenDevice {}),
    )
    .unwrap();

    assert_eq!(vm.operate_primitive(READ), Err(Error::ReadInput));
    assert_eq!(vm.pop(), Err(Error::StackUnderflow));
}

#[test]
fn illegal_primitive() {
    let mut vm = create();

    vm.push(number(1)).unwrap();

    let before = vm.to_string();

    assert_eq!(vm.operate_primitive(9), Err(Error::IllegalPrimitive));
    assert_eq!(vm.operate_primitive(21), Err(Error::IllegalPrimitive));
    assert_eq!(vm.operate_primitive(1000), Err(Error::IllegalPrimitive));
    assert_eq!(vm.to_string(), before);
    assert_eq!(vm.pop(), Ok(number(1)));
}

#[test]
fn allocate_in_full_space() {
    let mut vm = Vm::new(
        vec![Value::default(); 32],
        SmallPrimitiveSet::new(FixedBufferDevice::new(16)),
    )
    .unwrap();

    for index in 0..4 {
        vm.push(number(index)).unwrap();
    }

    assert_eq!(vm.memory().allocation_index(), vm.memory().space_size());
    assert_eq!(vm.operate_primitive(CONS), Err(Error::OutOfMemory));
    assert_eq!(vm.operate_primitive(READ), Err(Error::OutOfMemory));
    assert_eq!(vm.operate_primitive(ADD), Ok(()));
    assert_eq!(vm.pop(), Ok(number(5)));
}

#[test]
fn collect_before_cons() {
    let mut vm = Vm::new(
        vec![Value::default(); 32],
        SmallPrimitiveSet::new(FixedBufferDevice::new(16)),
    )
    .unwrap();

    vm.push(number(1)).unwrap();
    vm.push(number(2)).unwrap();
    vm.allocate(number(0), number(0)).unwrap();
    vm.allocate(number(0), number(0)).unwrap();

    assert_eq!(vm.memory().allocation_index(), vm.memory().space_size());
    assert_eq!(vm.operate_primitive(CONS), Ok(()));

    let cons = vm.pop().unwrap();

    assert_eq!(vm.memory().car_value(cons), Ok(number(1)));
    assert_eq!(vm.memory().cdr_value(cons), Ok(number(2)));
}

#[test]
fn fixed_buffer_device() {
    let mut device = FixedBufferDevice::with_input(vec![1, 2], 1);

    assert_eq!(device.read(), Ok(Some(1)));
    assert_eq!(device.read(), Ok(Some(2)));
    assert_eq!(device.read(), Ok(None));
    assert_eq!(device.read(), Ok(None));
    assert_eq!(device.write(3), Ok(()));
    assert_eq!(device.write(4), Err(DeviceError));
    assert_eq!(device.write_error(5), Ok(()));
    assert_eq!(device.write_error(6), Err(DeviceError));
    assert_eq!(device.output(), &vec![3]);
    assert_eq!(device.error(), &vec![5]);
}

#[test]
fn void_time() {
    assert_eq!(VoidTime::new().current_jiffy(), Some(Number::new(0)));
}

#[test]
fn libc_clock() {
    let time = LibcClock::new().current_jiffy().unwrap();

    // The first of January of the year 2020, in jiffies.
    assert!(time.to_u64() > 1_577_836_800_000_000_000);
}

#[test]
fn jiffies() {
    assert_eq!(jiffy(0, 0), Some(Number::new(0)));
    assert_eq!(jiffy(1, 5), Some(Number::new(1_000_000_005)));
    assert_eq!(
        jiffy(18_446_744_073, 709_551_615),
        Some(Number::new(u64::MAX))
    );
    assert_eq!(jiffy(18_446_744_073, 709_551_616), None);
    assert_eq!(jiffy(-1, 0), None);
    assert_eq!(jiffy(0, -1), None);
    assert_eq!(jiffy(0, 1_000_000_000), None);
    assert_eq!(jiffy(i64::MAX, 0), None);
}

#[test]
fn time_primitives() {
    let mut memory = Memory::new(vec![Value::default(); 32]).unwrap();
    let mut primitives = TimePrimitiveSet::new(VoidTime::new());

    assert_eq!(Primitive::from_number(0), Some(Primitive::CurrentJiffy));
    assert_eq!(Primitive::from_number(1), None);
    assert_eq!(primitives.operate(&mut memory, CURRENT_JIFFY), Ok(()));
    assert_eq!(memory.pop(), Ok(number(0)));
    assert_eq!(
        primitives.operate(&mut memory, 1),
        Err(Error::IllegalPrimitive)
    );
}

struct BrokenClock {}

impl Clock for BrokenClock {
    fn current_jiffy(&self) -> Option<Number> {
        None
    }
}

#[test]
fn clock_fails() {
    let mut memory = Memory::new(vec![Value::default(); 32]).unwrap();
    let mut primitives = TimePrimitiveSet::new(BrokenClock {});

    assert_eq!(
        primitives.operate(&mut memory, CURRENT_JIFFY),
        Err(Error::Clock)
    );
}

#[test]
fn composite_primitives() {
    let mut memory = Memory::new(vec![Value::default(); 32]).unwrap();
    let mut primitives = CompositePrimitiveSet::new(
        SmallPrimitiveSet::new(FixedBufferDevice::new(16)),
        TimePrimitiveSet::new(VoidTime::new()),
        100,
    );

    memory.push(number(1)).unwrap();
    memory.push(number(2)).unwrap();

    assert_eq!(primitives.operate(&mut memory, ADD), Ok(()));
    assert_eq!(memory.pop(), Ok(number(3)));
    assert_eq!(primitives.operate(&mut memory, 100), Ok(()));
    assert_eq!(memory.pop(), Ok(number(0)));
    assert_eq!(
        primitives.operate(&mut memory, 99),
        Err(Error::IllegalPrimitive)
    );
    assert_eq!(
        primitives.operate(&mut memory, 101),
        Err(Error::IllegalPrimitive)
    );
}

#[test]
fn apply_primitive_without_tail_call() {
    let program = vec![
        Instruction::Constant(1),
        Instruction::Constant(2),
        Instruction::Apply(Operand::Global(ADD), false),
        Instruction::Constant(4),
        Instruction::Apply(Operand::Global(MULTIPLY), false),
        Instruction::Halt,
    ];
    let mut vm = create();

    vm.load(&Program::new(vec![], program)).unwrap();

    assert_eq!(vm.run(100), Ok(true));
    assert_eq!(vm.pop(), Ok(number(12)));
}

#[test]
fn null_and_pair() {
    let mut vm = create();
    let null: Value = vm.memory().null().into();
    let yes: Value = vm.memory().boolean(true).into();
    let no: Value = vm.memory().boolean(false).into();
    let pair = operate(&mut vm, CONS, &[number(1), null]).unwrap();
    let rib = operate(&mut vm, RIB, &[number(1), null, number(3)]).unwrap();

    assert_eq!(operate(&mut vm, NULL, &[null]), Ok(yes));
    assert_eq!(operate(&mut vm, NULL, &[pair]), Ok(no));
    assert_eq!(operate(&mut vm, NULL, &[number(0)]), Ok(no));
    assert_eq!(operate(&mut vm, PAIR, &[pair]), Ok(yes));
    assert_eq!(operate(&mut vm, PAIR, &[rib]), Ok(no));
    assert_eq!(operate(&mut vm, PAIR, &[number(0)]), Ok(no));
    assert_eq!(operate(&mut vm, PAIR, &[]), Err(Error::StackUnderflow));
}

#[test]
fn halt() {
    let mut vm = create();

    vm.push(number(1)).unwrap();

    let before = vm.to_string();

    assert_eq!(HALT, 19);
    assert_eq!(vm.operate_primitive(HALT), Err(Error::Halt));
    assert_eq!(vm.to_string(), before);
    assert_eq!(vm.pop(), Ok(number(1)));
}

#[test]
fn halt_in_program() {
    let mut vm = create();

    vm.load(&Program::new(
        vec![],
        vec![
            Instruction::Constant(1),
            Instruction::Apply(Operand::Global(HALT), false),
            Instruction::Constant(2),
            Instruction::Halt,
        ],
    ))
    .unwrap();

    assert_eq!(vm.run(100), Err(Error::Halt));
    assert_eq!(vm.pop(), Ok(number(1)));
}

#[test]
fn bands_of_primitives() {
    use_bands();
}

fn use_bands() {
    let mut memory = Memory::new(vec![Value::default(); 64]).unwrap();
    let mut primitives = stak::primitive::r7rs::new(
        FixedBufferDevice::with_input(vec![65], 16),
        NoFileSystem {},
        stak::process_context::VoidProcessContext::new(),
        VoidTime::new(),
    );

    assert_eq!(primitives.operate(&mut memory, READ), Ok(()));
    assert_eq!(memory.pop(), Ok(number(65)));
    assert_eq!(primitives.operate(&mut memory, 99), Err(Error::IllegalPrimitive));
    memory.push(memory.null().into()).unwrap();
    assert_eq!(primitives.operate(&mut memory, 105), Ok(()));
    assert_eq!(memory.pop(), Ok(memory.boolean(false).into()));
    assert_eq!(primitives.operate(&mut memory, 106), Err(Error::IllegalPrimitive));
    assert_eq!(primitives.operate(&mut memory, 200), Ok(()));
    assert_eq!(memory.pop(), Ok(memory.null().into()));
    assert_eq!(primitives.operate(&mut memory, 202), Err(Error::IllegalPrimitive));
    assert_eq!(primitives.operate(&mut memory, 300), Ok(()));
    assert_eq!(memory.pop(), Ok(number(0)));
    assert_eq!(primitives.operate(&mut memory, 301), Err(Error::IllegalPrimitive));
}

struct NoFileSystem {}

impl stak::file::FileSystem for NoFileSystem {
    fn open(&mut self, _path: &[u8], _output: bool) -> Result<usize, stak::file::FileError> {
        Err(stak::file::FileError)
    }

    fn close(&mut self, _descriptor: usize) -> Result<(), stak::file::FileError> {
        Err(stak::file::FileError)
    }

    fn read(&mut self, _descriptor: usize) -> Result<u8, stak::file::FileError> {
        Err(stak::file::FileError)
    }

    fn write(&mut self, _descriptor: usize, _byte: u8) -> Result<(), stak::file::FileError> {
        Err(stak::file::FileError)
    }

    fn delete(&mut self, _path: &[u8]) -> Result<(), stak::file::FileError> {
        Err(stak::file::FileError)
    }

    fn is_present(&self, _path: &[u8]) -> Result<bool, stak::file::FileError> {
        Ok(false)
    }
}
