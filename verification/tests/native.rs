use stak::native::foreign::FOREIGN_TAG;
use stak::native::{pop_arguments, ForeignTable};
use stak::vm::{Cons, Error, Memory, Number, Value};

const HEAP_SIZE: usize = 1 << 8;

struct Foo {
    bar: usize,
}

fn create_memory() -> Memory {
    Memory::new(vec![Value::default(); HEAP_SIZE]).unwrap()
}

fn invalidate_foreign_values(memory: &mut Memory) {
    for index in 0..(memory.allocation_index() / 2) {
        let cons = Cons::new(memory.allocation_start() + 2 * index);

        if memory.cdr(cons).to_cons().map(|cons| cons.tag()) == Some(FOREIGN_TAG) {
            memory.set_car(cons, Number::new(1 << 16).into());
        }
    }
}

#[test]
fn dynamic_create() {
    let table = ForeignTable::<Foo>::new(0);

    assert_eq!(table.find_free(), None);
}

#[test]
fn collect_none() {
    let mut table = ForeignTable::<Foo>::new(42);

    table.collect_garbages(&create_memory());

    assert_eq!(table.find_free(), Some(0));
}

#[test]
fn collect_one() {
    let mut table = ForeignTable::<Foo>::new(1);
    let mut memory = create_memory();

    table.insert(&mut memory, Foo { bar: 42 }).unwrap();

    assert_eq!(table.find_free(), None);

    invalidate_foreign_values(&mut memory);

    table.collect_garbages(&memory);

    assert_eq!(table.find_free(), Some(0));
}

#[test]
fn keep_one() {
    let mut table = ForeignTable::<Foo>::new(1);
    let mut memory = create_memory();

    let cons = table.insert(&mut memory, Foo { bar: 42 }).unwrap();

    assert_eq!(table.find_free(), None);

    table.collect_garbages(&memory);

    assert_eq!(table.find_free(), None);
    assert_eq!(table.get(&memory, cons.into()).map(|foo| foo.bar), Some(42));
    assert!(table.get(&memory, Number::new(0).into()).is_none());
    assert!(table.get(&memory, memory.null().into()).is_none());
}

#[test]
fn insert_into_full_table() {
    let mut table = ForeignTable::<Foo>::new(1);
    let mut memory = create_memory();

    table.insert(&mut memory, Foo { bar: 1 }).unwrap();

    assert_eq!(
        table.insert(&mut memory, Foo { bar: 2 }),
        Err(Error::OutOfMemory)
    );
}

#[test]
fn insert_after_sweep() {
    let mut table = ForeignTable::<Foo>::new(2);
    let mut memory = create_memory();

    table.insert(&mut memory, Foo { bar: 1 }).unwrap();
    let second = table.insert(&mut memory, Foo { bar: 2 }).unwrap();

    invalidate_foreign_values(&mut memory);

    let third = table.insert(&mut memory, Foo { bar: 3 }).unwrap();

    assert_eq!(memory.car(third), Number::new(0).into());
    assert_eq!(table.get(&memory, third.into()).map(|foo| foo.bar), Some(3));
    assert!(table.get(&memory, second.into()).is_none());
    assert_eq!(table.find_free(), Some(1));
}

#[test]
fn pop_arguments_in_order() {
    let mut memory = create_memory();

    memory.push(Number::new(1).into()).unwrap();
    memory.push(Number::new(2).into()).unwrap();
    memory.push(Number::new(3).into()).unwrap();

    let arguments = pop_arguments(&mut memory, 2).unwrap();

    assert_eq!(arguments.len(), 2);
    assert_eq!(arguments.get(0), Some(Number::new(2).into()));
    assert_eq!(arguments.get(1), Some(Number::new(3).into()));
    assert_eq!(arguments.get(2), None);
    assert_eq!(memory.pop(), Ok(Number::new(1).into()));
}

#[test]
fn pop_too_many_arguments() {
    let mut memory = create_memory();

    for index in 0..20 {
        memory.push(Number::new(index).into()).unwrap();
    }

    assert!(matches!(
        pop_arguments(&mut memory, 17),
        Err(Error::ArgumentCount)
    ));
    assert_eq!(memory.pop(), Ok(Number::new(19).into()));
    assert_eq!(pop_arguments(&mut memory, 16).map(|list| list.len()).ok(), Some(16));
    assert!(matches!(
        pop_arguments(&mut memory, 4),
        Err(Error::StackUnderflow)
    ));
}
