use stak::device::FixedBufferDevice;
use stak::primitive::SmallPrimitiveSet;
use stak::vm::{Error, Number, Value, Vm};

const HEAP_SIZE: usize = 2 * 16;

fn create_vm() -> Vm<SmallPrimitiveSet<FixedBufferDevice>> {
    Vm::new(
        vec![Value::default(); HEAP_SIZE],
        SmallPrimitiveSet::new(FixedBufferDevice::new(16)),
    )
    .unwrap()
}

#[test]
fn pop_nothing() {
    let mut vm = create_vm();

    assert_eq!(vm.pop(), Err(Error::StackUnderflow));
}

#[test]
fn push_and_pop() {
    let mut vm = create_vm();

    vm.push(Number::new(42).into()).unwrap();

    assert_eq!(vm.pop(), Ok(Number::new(42).into()));
}

#[test]
fn push_and_pop_twice() {
    let mut vm = create_vm();

    vm.push(Number::new(1).into()).unwrap();
    vm.push(Number::new(2).into()).unwrap();

    assert_eq!(vm.pop(), Ok(Number::new(2).into()));
    assert_eq!(vm.pop(), Ok(Number::new(1).into()));
}
