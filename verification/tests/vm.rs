use stak::device::FixedBufferDevice;
use stak::primitive::SmallPrimitiveSet;
use stak::vm::{Cons, Error, Number, Value, Vm};

const CONS_FIELD_COUNT: usize = 2;
const HEAP_SIZE: usize = CONS_FIELD_COUNT * 16;

type FakeDevice = FixedBufferDevice;

fn zero() -> Value {
    Number::new(0).into()
}

fn create_vm() -> Vm<SmallPrimitiveSet<FakeDevice>> {
    Vm::new(
        vec![Value::default(); HEAP_SIZE],
        SmallPrimitiveSet::new(FakeDevice::new(16)),
    )
    .unwrap()
}

const INITIAL: &str = "n0 n0\nn0 n0\nc0 c2\nn0 c4:9\n";
const COLLECTED: &str = "n0 c18:9\nc20 c22\nn0 n0\nn0 n0\n";

#[test]
fn vm_create() {
    let vm = create_vm();

    assert_eq!(vm.to_string(), INITIAL);
}

#[test]
fn create_too_small() {
    let result = Vm::new(
        vec![Value::default(); 15],
        SmallPrimitiveSet::new(FakeDevice::new(16)),
    );

    assert!(matches!(result, Err(Error::OutOfMemory)));
}

#[test]
fn create_smallest() {
    let vm = Vm::new(
        vec![Value::default(); 16],
        SmallPrimitiveSet::new(FakeDevice::new(16)),
    )
    .unwrap();

    assert_eq!(vm.memory().allocation_index(), 8);
    assert_eq!(vm.memory().space_size(), 8);
}

#[test]
fn run_nothing() {
    let mut vm = create_vm();

    assert_eq!(vm.run(100), Ok(true));

    assert_eq!(vm.to_string(), INITIAL);
}

#[test]
fn run_nothing_after_garbage_collection() {
    let mut vm = create_vm();

    vm.collect_garbages();
    assert_eq!(vm.run(100), Ok(true));

    assert_eq!(vm.to_string(), COLLECTED);
}

#[test]
fn create_list() {
    let mut vm = create_vm();
    let null = vm.memory().null();

    let list = vm.allocate(Number::new(1).into(), null.into()).unwrap();

    assert_eq!(vm.to_string(), format!("{}n1 c4\n", INITIAL));

    let list = vm.allocate(Number::new(2).into(), list.into()).unwrap();

    assert_eq!(vm.to_string(), format!("{}n1 c4\nn2 c8\n", INITIAL));

    vm.allocate(Number::new(3).into(), list.into()).unwrap();

    assert_eq!(vm.to_string(), format!("{}n1 c4\nn2 c8\nn3 c10\n", INITIAL));
}

#[test]
fn collect_cons() {
    let mut vm = create_vm();

    vm.allocate(zero(), zero()).unwrap();
    vm.collect_garbages();

    assert_eq!(vm.to_string(), COLLECTED);
}

#[test]
fn collect_stack() {
    let mut vm = create_vm();

    vm.push(Number::new(42).into()).unwrap();
    vm.collect_garbages();

    assert_eq!(vm.to_string(), "n0 c24:9\nn42 c24\nn0 n0\nn0 n0\nc20 c22\n");
}

#[test]
fn collect_deep_stack() {
    let mut vm = create_vm();

    vm.push(Number::new(1).into()).unwrap();
    vm.push(Number::new(2).into()).unwrap();
    vm.collect_garbages();

    assert_eq!(
        vm.to_string(),
        "n0 c24:9\nn2 c26\nn0 n0\nn0 n0\nc20 c22\nn1 c24\n"
    );
}

#[test]
fn collect_cycle() {
    let mut vm = create_vm();

    let cons = vm.allocate(zero(), zero()).unwrap();
    vm.memory.set_cdr(cons, cons.into());

    vm.collect_garbages();

    assert_eq!(vm.to_string(), COLLECTED);
}

#[test]
fn collect_cycle_on_stack() {
    let mut vm = create_vm();

    let cons = vm.allocate(Number::new(5).into(), zero()).unwrap();
    vm.memory.set_cdr(cons, cons.into());
    vm.push(cons.into()).unwrap();
    vm.collect_garbages();

    let held = vm.pop().unwrap();

    assert_eq!(vm.memory().car_value(held), Ok(Number::new(5).into()));
    assert_eq!(vm.memory().cdr_value(held), Ok(held));
}

#[test]
fn collect_shared_cell_once() {
    let mut vm = create_vm();

    let shared = vm.allocate(Number::new(5).into(), zero()).unwrap();
    let pair = vm.allocate(shared.into(), shared.into()).unwrap();

    vm.push(pair.into()).unwrap();
    vm.collect_garbages();

    let pair = vm.pop().unwrap();
    let first = vm.memory().car_value(pair).unwrap();
    let second = vm.memory().cdr_value(pair).unwrap();

    assert_eq!(first, second);
    assert_eq!(vm.memory().car_value(first), Ok(Number::new(5).into()));
    // The four cells of a new machine, the cell of the stack, the pair and the shared cell.
    assert_eq!(vm.memory().allocation_index(), 2 * 7);
}

#[test]
fn collect_keeps_sentinels_and_tags() {
    let mut vm = create_vm();
    let tagged = vm.memory().null().set_tag(7);

    vm.push(tagged.into()).unwrap();
    vm.collect_garbages();

    let null = vm.memory().null();
    let no = vm.memory().boolean(false);
    let yes = vm.memory().boolean(true);

    assert_eq!(vm.memory().car(null), no.into());
    assert_eq!(vm.memory().cdr(null), yes.into());
    assert_ne!(no, yes);
    assert_eq!(vm.pop(), Ok(null.set_tag(7).into()));
}

#[test]
fn allocate_within_active_space() {
    let mut vm = create_vm();

    for _ in 0..100 {
        let cons = vm.allocate(zero(), zero()).unwrap();
        let start = vm.memory().allocation_start();

        assert!(start <= cons.index());
        assert!(cons.index() + 1 < vm.memory().allocation_end());
        assert!(vm.memory().allocation_index() <= vm.memory().space_size());
        assert_eq!(cons.tag(), 0);
    }
}

#[test]
fn values_compare_by_index_and_tag() {
    let number: Value = Number::new(1).into();
    let cons: Value = Cons::new(2).into();

    assert_eq!(number, Number::new(1).into());
    assert_ne!(number, Number::new(2).into());
    assert_eq!(cons, Cons::new(2).into());
    assert_ne!(cons, Cons::new(4).into());
    assert_ne!(cons, Cons::new(2).set_tag(1).into());
    assert_eq!(cons.set_tag(1).to_cons().map(|cons| cons.tag()), Some(1));
    assert_eq!(number.set_tag(1), number);
    assert!(cons.is_cons());
    assert!(!number.is_cons());
    assert_eq!(number.to_number(), Some(Number::new(1)));
    assert_eq!(cons.to_number(), None);
}

#[test]
fn display_values() {
    assert_eq!(Number::new(42).to_string(), "n42");
    assert_eq!(Number::new(0).to_string(), "n0");
    assert_eq!(Cons::new(12).to_string(), "c12");
    assert_eq!(Cons::new(12).set_tag(3).to_string(), "c12:3");
    assert_eq!(Value::from(Number::new(u64::MAX)).to_string(), "n18446744073709551615");
}

#[test]
fn pop_many_in_order() {
    let mut vm = create_vm();

    vm.push(Number::new(1).into()).unwrap();
    vm.push(Number::new(2).into()).unwrap();
    vm.push(Number::new(3).into()).unwrap();

    assert_eq!(
        vm.memory.pop_many(2),
        Ok(vec![Number::new(2).into(), Number::new(3).into()])
    );
    assert_eq!(vm.memory.pop_numbers(1), Ok(vec![Number::new(1)]));
    assert_eq!(vm.memory.pop_many(1), Err(Error::StackUnderflow));
}

#[test]
fn pop_numbers_expects_numbers() {
    let mut vm = create_vm();
    let null = vm.memory().null();

    vm.push(null.into()).unwrap();
    vm.push(Number::new(3).into()).unwrap();

    assert_eq!(vm.memory.pop_numbers(2), Err(Error::NumberExpected));
    assert_eq!(vm.pop(), Err(Error::StackUnderflow));
}

#[test]
fn tail_of_list() {
    let mut vm = create_vm();

    vm.push(Number::new(1).into()).unwrap();
    vm.push(Number::new(2).into()).unwrap();

    let stack = vm.memory().stack();
    let second = vm.memory().tail(stack, 1).unwrap();

    assert_eq!(vm.memory().tail(stack, 0), Ok(stack));
    assert_eq!(vm.memory().car(second), Number::new(1).into());
    assert_eq!(vm.memory().tail(stack, 2), Ok(vm.memory().null()));
    assert_eq!(vm.memory().tail(stack, 5), Err(Error::ConsExpected));
}

#[test]
fn last_in_first_out() {
    let mut vm = Vm::new(
        vec![Value::default(); 64],
        SmallPrimitiveSet::new(FakeDevice::new(16)),
    )
    .unwrap();

    for index in 0..10 {
        vm.push(Number::new(index).into()).unwrap();
    }

    for index in (0..10).rev() {
        assert_eq!(vm.pop(), Ok(Number::new(index).into()));
    }

    assert_eq!(vm.pop(), Err(Error::StackUnderflow));
}
