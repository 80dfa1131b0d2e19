use stak::code::{Error as CodeError, Instruction, Operand, Program};
use stak::device::FixedBufferDevice;
use stak::primitive::small::{ADD, CLOSE, EQUAL, ID, SUBTRACT};
use stak::primitive::SmallPrimitiveSet;
use stak::vm::instruction::{FRAME_TAG, HALT};
use stak::vm::{Cons, Error, Number, Value, Vm};

type Machine = Vm<SmallPrimitiveSet<FixedBufferDevice>>;

fn number(number: u64) -> Value {
    Number::new(number).into()
}

fn create(size: usize) -> Machine {
    Vm::new(
        vec![Value::default(); size],
        SmallPrimitiveSet::new(FixedBufferDevice::new(16)),
    )
    .unwrap()
}

fn run(program: Vec<Instruction>) -> (Machine, Result<bool, Error>) {
    let mut vm = create(256);

    vm.load(&Program::new(vec![], program)).unwrap();

    let result = vm.run(10_000);

    (vm, result)
}

fn frames(vm: &Machine) -> usize {
    let mut count = 0;
    let mut stack = vm.memory().stack();

    while stack.index() != vm.memory().null().index() {
        let next = vm.memory().cdr(stack).to_cons().unwrap();

        if next.tag() == FRAME_TAG {
            count += 1;
        }

        stack = next;
    }

    count
}

#[test]
fn get_and_set_variables() {
    let (mut vm, result) = run(vec![
        Instruction::Constant(5),
        Instruction::Store(Operand::Global(200)),
        Instruction::Get(Operand::Global(200)),
        Instruction::Get(Operand::Global(200)),
        Instruction::Constant(7),
        Instruction::Store(Operand::Local(1)),
        Instruction::Get(Operand::Local(0)),
        Instruction::Halt,
    ]);

    assert_eq!(result, Ok(true));
    assert_eq!(vm.pop(), Ok(number(5)));
    assert_eq!(vm.pop(), Ok(number(5)));
    assert_eq!(vm.pop(), Ok(number(7)));
}

#[test]
fn global_starts_as_its_number() {
    let (mut vm, result) = run(vec![
        Instruction::Get(Operand::Global(200)),
        Instruction::Halt,
    ]);

    assert_eq!(result, Ok(true));
    assert_eq!(vm.pop(), Ok(number(200)));
}

#[test]
fn branch() {
    let program = |x| {
        vec![
            Instruction::Constant(1),
            Instruction::Constant(x),
            Instruction::Apply(Operand::Global(EQUAL), false),
            Instruction::If(vec![Instruction::Constant(10), Instruction::Halt]),
            Instruction::Constant(20),
            Instruction::Halt,
        ]
    };

    let (mut vm, result) = run(program(1));

    assert_eq!(result, Ok(true));
    assert_eq!(vm.pop(), Ok(number(10)));

    let (mut vm, result) = run(program(2));

    assert_eq!(result, Ok(true));
    assert_eq!(vm.pop(), Ok(number(20)));
}

#[test]
fn branch_on_other_value() {
    let (mut vm, result) = run(vec![
        Instruction::Constant(1),
        Instruction::If(vec![Instruction::Constant(10), Instruction::Halt]),
        Instruction::Constant(20),
        Instruction::Halt,
    ]);

    assert_eq!(result, Ok(true));
    assert_eq!(vm.pop(), Ok(number(20)));
}

#[test]
fn branch_joins_with_skip() {
    let (mut vm, result) = run(vec![
        Instruction::Constant(1),
        Instruction::Constant(1),
        Instruction::Apply(Operand::Global(EQUAL), false),
        Instruction::If(vec![Instruction::Constant(10), Instruction::Skip(1)]),
        Instruction::Constant(20),
        Instruction::Constant(30),
        Instruction::Halt,
    ]);

    assert_eq!(result, Ok(true));
    assert_eq!(vm.pop(), Ok(number(30)));
    assert_eq!(vm.pop(), Ok(number(10)));
}

#[test]
fn nop() {
    let (mut vm, result) = run(vec![
        Instruction::Nop(3),
        Instruction::Constant(1),
        Instruction::Halt,
    ]);

    assert_eq!(result, Ok(true));
    assert_eq!(vm.pop(), Ok(number(1)));
}

#[test]
fn program_without_end_halts() {
    let (mut vm, result) = run(vec![Instruction::Constant(1)]);

    assert_eq!(result, Ok(true));
    assert_eq!(vm.pop(), Ok(number(1)));
}

#[test]
fn call_closure_with_arguments() {
    let (mut vm, result) = run(vec![
        Instruction::Constant(100),
        Instruction::Close(
            2,
            vec![
                Instruction::Get(Operand::Local(1)),
                Instruction::Get(Operand::Local(1)),
                Instruction::Apply(Operand::Global(SUBTRACT), true),
            ],
        ),
        Instruction::Apply(Operand::Global(CLOSE), false),
        Instruction::Store(Operand::Global(300)),
        Instruction::Constant(9),
        Instruction::Constant(4),
        Instruction::Constant(2),
        Instruction::Apply(Operand::Global(300), false),
        Instruction::Halt,
    ]);

    assert_eq!(result, Ok(true));
    assert_eq!(vm.pop(), Ok(number(5)));
    assert_eq!(vm.pop(), Ok(number(100)));
}

#[test]
fn arity_enforced() {
    let mut vm = create(256);

    vm.load(&Program::new(vec![], vec![
        Instruction::Close(
            2,
            vec![Instruction::Apply(Operand::Global(ID), true)],
        ),
        Instruction::Apply(Operand::Global(CLOSE), false),
        Instruction::Store(Operand::Global(300)),
        Instruction::Constant(9),
        Instruction::Constant(1),
        Instruction::Apply(Operand::Global(300), false),
        Instruction::Halt,
    ]))
    .unwrap();

    assert_eq!(vm.run(4), Ok(false));
    assert_eq!(vm.step(), Ok(false));

    let before = vm.to_string();
    let stack = vm.memory().stack();
    let code = vm.memory().code();

    assert_eq!(vm.step(), Err(Error::ArgumentCount));
    assert_eq!(vm.step(), Err(Error::ArgumentCount));
    assert_eq!(vm.to_string(), before);
    assert_eq!(vm.memory().stack(), stack);
    assert_eq!(vm.memory().code(), code);
}

#[test]
fn tail_calls_keep_frames() {
    // A procedure that counts its argument down to zero by calling itself in tail calls.
    let program = vec![
        Instruction::Close(
            1,
            vec![
                Instruction::Get(Operand::Local(0)),
                Instruction::Constant(0),
                Instruction::Apply(Operand::Global(EQUAL), false),
                Instruction::If(vec![
                    Instruction::Constant(42),
                    Instruction::Apply(Operand::Global(ID), true),
                ]),
                Instruction::Get(Operand::Local(0)),
                Instruction::Constant(1),
                Instruction::Apply(Operand::Global(SUBTRACT), false),
                Instruction::Constant(1),
                Instruction::Apply(Operand::Global(300), true),
            ],
        ),
        Instruction::Apply(Operand::Global(CLOSE), false),
        Instruction::Store(Operand::Global(300)),
        Instruction::Constant(1000),
        Instruction::Constant(1),
        Instruction::Apply(Operand::Global(300), false),
        Instruction::Halt,
    ];
    let mut vm = create(256);
    let mut greatest = 0;

    vm.load(&Program::new(vec![], program)).unwrap();

    loop {
        match vm.step() {
            Ok(true) => break,
            Ok(false) => greatest = greatest.max(frames(&vm)),
            Err(error) => panic!("{:?}", error),
        }
    }

    assert_eq!(greatest, 2);
    assert_eq!(vm.pop(), Ok(number(42)));
}

#[test]
fn recursion_out_of_memory() {
    // A procedure that calls itself in a call that is no tail call.
    let program = vec![
        Instruction::Close(
            0,
            vec![
                Instruction::Constant(0),
                Instruction::Apply(Operand::Global(300), false),
                Instruction::Apply(Operand::Global(ID), true),
            ],
        ),
        Instruction::Apply(Operand::Global(CLOSE), false),
        Instruction::Store(Operand::Global(300)),
        Instruction::Constant(0),
        Instruction::Apply(Operand::Global(300), false),
        Instruction::Halt,
    ];
    let (_, result) = run(program);

    assert_eq!(result, Err(Error::OutOfMemory));
}

#[test]
fn apply_unknown_primitive() {
    let (_, result) = run(vec![Instruction::Apply(Operand::Global(9), true)]);

    assert_eq!(result, Err(Error::IllegalPrimitive));
}

#[test]
fn apply_with_stack_underflow() {
    let mut vm = create(64);
    let null = vm.memory().null();

    vm.memory.set_stack(null);
    let code = vm.allocate(number(0), null.into()).unwrap();
    let procedure = vm.allocate(code.into(), null.into()).unwrap();
    let variable = vm.allocate(procedure.into(), number(0)).unwrap();
    let instruction = vm
        .allocate(variable.into(), null.set_tag(5).into())
        .unwrap();

    vm.memory.set_code(instruction);

    assert_eq!(vm.step(), Err(Error::StackUnderflow));
}

#[test]
fn illegal_instruction() {
    let mut vm = create(64);
    let null = vm.memory().null();
    let instruction = vm.allocate(number(0), null.set_tag(6).into()).unwrap();

    vm.memory.set_code(instruction);

    assert_eq!(vm.step(), Err(Error::IllegalInstruction));
}

#[test]
fn instruction_without_next() {
    let mut vm = create(64);
    let instruction = vm.allocate(number(0), number(0)).unwrap();

    vm.memory.set_code(instruction);

    assert_eq!(vm.step(), Err(Error::ConsExpected));
}

#[test]
fn apply_number_expected() {
    let mut vm = create(64);
    let null = vm.memory().null();
    let code = vm.allocate(null.into(), null.into()).unwrap();
    let procedure = vm.allocate(code.into(), null.into()).unwrap();
    let variable = vm.allocate(procedure.into(), number(0)).unwrap();
    let instruction = vm
        .allocate(variable.into(), null.set_tag(5).into())
        .unwrap();

    vm.memory.set_code(instruction);

    assert_eq!(vm.step(), Err(Error::NumberExpected));
}

#[test]
fn initialize_with_broken_code() {
    let mut vm = create(64);
    let before = vm.to_string();

    assert_eq!(
        vm.initialize(&[1, 3]),
        Err(Error::Code(CodeError::MissingElseBranch))
    );
    assert_eq!(vm.to_string(), before);
    assert_eq!(
        vm.initialize(&[0, 11]),
        Err(Error::Code(CodeError::IllegalInstruction))
    );
    assert_eq!(
        vm.initialize(&[255, 255, 255, 255, 255, 255, 255, 255, 255, 2, 0]),
        Err(Error::Code(CodeError::MissingInteger))
    );
    assert_eq!(
        vm.initialize(&[255, 255, 255, 255, 255, 255, 255, 255, 255, 2, 1]),
        Err(Error::Code(CodeError::MissingOperand))
    );
}

#[test]
fn load_without_room() {
    let mut vm = create(32);
    let code = vm.memory().code();
    let stack = vm.memory().stack();

    assert_eq!(
        vm.load(&Program::new(vec![], vec![
            Instruction::Constant(1),
            Instruction::Constant(2),
            Instruction::Halt
        ])),
        Err(Error::OutOfMemory)
    );
    assert_eq!(vm.memory().code(), code);
    assert_eq!(vm.memory().stack(), stack);
    assert_eq!(vm.memory().allocation_index(), 8);
    assert_eq!(vm.to_string(), "n0 n0\nn0 n0\nc0 c2\nn0 c4:9\n");
    assert_eq!(vm.run(10), Ok(true));
}

#[test]
fn load_skip_over_end() {
    let mut vm = create(64);

    assert_eq!(
        vm.load(&Program::new(vec![], vec![Instruction::Skip(10)])),
        Err(Error::IllegalInstruction)
    );
}

#[test]
fn load_layout() {
    let mut vm = create(64);
    let null = vm.memory().null();

    vm.load(&Program::new(vec![], vec![
        Instruction::Constant(1),
        Instruction::Apply(Operand::Global(ADD), true),
    ]))
    .unwrap();

    assert_eq!(
        vm.to_string(),
        format!(
            "n0 n0\nn0 n0\nc0 c2\nn0 c4:{}\nn12 n12\nc8 c4:5\nn1 c10\nc4 c6:4\nc14 c4\nc16 c4:1\n",
            HALT
        )
    );
    assert_eq!(vm.memory().code(), Cons::new(12));
    assert_eq!(vm.memory().stack(), Cons::new(18));
    assert_eq!(vm.memory().null(), null);
    assert_eq!(vm.run(1), Ok(false));
    assert_eq!(vm.memory().code(), Cons::new(10));
}

#[test]
fn collect_during_run() {
    let program = vec![
        Instruction::Close(
            1,
            vec![
                Instruction::Get(Operand::Local(0)),
                Instruction::Constant(0),
                Instruction::Apply(Operand::Global(EQUAL), false),
                Instruction::If(vec![
                    Instruction::Constant(42),
                    Instruction::Apply(Operand::Global(ID), true),
                ]),
                Instruction::Get(Operand::Local(0)),
                Instruction::Constant(1),
                Instruction::Apply(Operand::Global(SUBTRACT), false),
                Instruction::Constant(1),
                Instruction::Apply(Operand::Global(300), true),
            ],
        ),
        Instruction::Apply(Operand::Global(CLOSE), false),
        Instruction::Store(Operand::Global(300)),
        Instruction::Constant(7),
        Instruction::Constant(200),
        Instruction::Constant(1),
        Instruction::Apply(Operand::Global(300), false),
        Instruction::Halt,
    ];
    let mut vm = create(160);
    let start = vm.memory().allocation_start();
    let mut collected = false;

    vm.load(&Program::new(vec![], program)).unwrap();

    while !vm.run(1).unwrap() {
        collected = collected || vm.memory().allocation_start() != start;
    }

    assert!(collected);
    assert_eq!(vm.pop(), Ok(number(42)));
    assert_eq!(vm.pop(), Ok(number(7)));
}

#[test]
fn initialize_as_load() {
    let mut symbols = vec![String::new(); 30];

    symbols.push("foo".to_string());

    let program = Program::new(
        symbols,
        vec![
            Instruction::Constant(7),
            Instruction::Close(
                1,
                vec![
                    Instruction::Get(Operand::Local(0)),
                    Instruction::Constant(0),
                    Instruction::Apply(Operand::Global(EQUAL), false),
                    Instruction::If(vec![
                        Instruction::Constant(42),
                        Instruction::Skip(1),
                    ]),
                    Instruction::Nop(0),
                    Instruction::Apply(Operand::Global(ID), true),
                ],
            ),
            Instruction::Apply(Operand::Global(CLOSE), false),
            Instruction::Store(Operand::Global(30)),
            Instruction::Constant(0),
            Instruction::Constant(1),
            Instruction::Apply(Operand::Global(30), false),
            Instruction::Halt,
        ],
    );
    let mut loaded = create(256);
    let mut initialized = create(256);

    loaded.load(&program).unwrap();
    initialized
        .initialize(&stak::code::encode(&program))
        .unwrap();

    assert_eq!(initialized.to_string(), loaded.to_string());
    assert_eq!(initialized.memory().code(), loaded.memory().code());
    assert_eq!(initialized.memory().stack(), loaded.memory().stack());
    assert_eq!(initialized.run(1000), Ok(true));
    assert_eq!(initialized.pop(), Ok(number(42)));
    assert_eq!(initialized.pop(), Ok(number(7)));
}

#[test]
fn initialize_cut_short() {
    let mut vm = create(64);
    let code = vm.memory().code();

    assert_eq!(
        vm.initialize(&[1, 0, 128 + 2]),
        Err(Error::Code(CodeError::EndOfInput))
    );
    assert_eq!(vm.memory().code(), code);
    assert_eq!(vm.run(10), Ok(true));
    assert_eq!(
        vm.initialize(&[1]),
        Err(Error::Code(CodeError::EndOfInput))
    );
    assert_eq!(
        vm.initialize(&[1, 10, 0xff]),
        Err(Error::Code(CodeError::Utf8))
    );
    assert_eq!(
        vm.initialize(&[0, 6, 1]),
        Err(Error::Code(CodeError::MissingClosureBody))
    );
}
