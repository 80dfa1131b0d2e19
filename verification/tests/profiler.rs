use stak::code::{Instruction, Operand, Program};
use stak::device::FixedBufferDevice;
use stak::primitive::small::{CLOSE, ID};
use stak::primitive::SmallPrimitiveSet;
use stak::profiler::{
    parse_raw_records, parse_records, Error, ProcedureRecord, Record, RecordType, WriteProfiler,
};
use stak::time::VoidTime;
use stak::vm::{Value, Vm};

fn name(text: &str) -> String {
    text.to_string()
}

#[test]
fn lib_parse_record() {
    assert_eq!(
        parse_records("call\tfoo;bar;baz\t0\nreturn\tfoo;bar;baz\t42"),
        vec![
            Ok(Record::new(
                RecordType::Call,
                vec![name("foo"), name("bar"), name("baz")],
                0
            )),
            Ok(Record::new(
                RecordType::Return,
                vec![name("foo"), name("bar"), name("baz")],
                42
            ))
        ]
    );
}

#[test]
fn parse_parse_record() {
    assert_eq!(
        parse_raw_records("call\tfoo;bar;baz\t0\nreturn\tfoo;bar;baz\t42"),
        vec![
            Ok(ProcedureRecord::new(
                RecordType::Call,
                vec![Some(name("baz")), Some(name("bar")), Some(name("foo"))],
                0
            )),
            Ok(ProcedureRecord::new(
                RecordType::Return,
                vec![Some(name("baz")), Some(name("bar")), Some(name("foo"))],
                42
            ))
        ]
    );
}

#[test]
fn parse_names_of_many_bytes() {
    assert_eq!(
        parse_records("call\t\u{3bb};caf\u{e9};\u{1f600}\t3\r\nreturn\t\u{3bb}\t4"),
        vec![
            Ok(Record::new(
                RecordType::Call,
                vec![name("\u{3bb}"), name("caf\u{e9}"), name("\u{1f600}")],
                3
            )),
            Ok(Record::new(RecordType::Return, vec![name("\u{3bb}")], 4)),
        ]
    );
    assert_eq!(
        parse_raw_records("call\t\u{3bb};;caf\u{e9}\t3"),
        vec![Ok(ProcedureRecord::new(
            RecordType::Call,
            vec![Some(name("caf\u{e9}")), None, Some(name("\u{3bb}"))],
            3
        ))]
    );
}

#[test]
fn test_display() {
    assert_eq!(RecordType::Call.to_string(), "call");
    assert_eq!(RecordType::Return.to_string(), "return");
    assert_eq!(RecordType::ReturnCall.to_string(), "return_call");
}

#[test]
fn test_from_str() {
    assert_eq!("call".parse(), Ok(RecordType::Call));
    assert_eq!("return".parse(), Ok(RecordType::Return));
    assert_eq!("return_call".parse(), Ok(RecordType::ReturnCall));
    assert_eq!(
        "unknown".parse::<RecordType>(),
        Err(Error::UnknownRecordType)
    );
}

#[test]
fn parse_like_std() {
    let source = "call\ta\t+7\r\nreturn\tb\t8\n\r\nreturn_call\tc\t9\r";
    let lines = source.lines().collect::<Vec<_>>();
    let records = parse_records(source);

    assert_eq!(lines, vec!["call\ta\t+7", "return\tb\t8", "", "return_call\tc\t9\r"]);
    assert_eq!("+7".parse::<u64>(), Ok(7));
    assert!("9\r".parse::<u64>().is_err());
    assert!("+".parse::<u64>().is_err());
    assert_eq!(
        records,
        vec![
            Ok(Record::new(RecordType::Call, vec![name("a")], 7)),
            Ok(Record::new(RecordType::Return, vec![name("b")], 8)),
            Err(Error::UnknownRecordType),
            Err(Error::ParseTime),
        ]
    );
    assert_eq!(parse_records("call\ta\t+"), vec![Err(Error::ParseTime)]);
    assert_eq!(parse_records("call\ta\t-1"), vec![Err(Error::ParseTime)]);
}

#[test]
fn parse_lines() {
    assert_eq!(parse_records(""), vec![]);
    assert_eq!(
        parse_records("return_call\t\t7\r\n"),
        vec![Ok(Record::new(RecordType::ReturnCall, vec![name("")], 7))]
    );
    assert_eq!(
        parse_raw_records("return_call\t;a\t7\n"),
        vec![Ok(ProcedureRecord::new(
            RecordType::ReturnCall,
            vec![Some(name("a")), None],
            7
        ))]
    );
}

#[test]
fn parse_errors() {
    assert_eq!(
        parse_records("\ncall\nfoo\t\t1\ncall\ta\ncall\ta\tx\ncall\ta\t18446744073709551616\ncall\ta\t18446744073709551615"),
        vec![
            Err(Error::UnknownRecordType),
            Err(Error::MissingStack),
            Err(Error::UnknownRecordType),
            Err(Error::MissingTime),
            Err(Error::ParseTime),
            Err(Error::ParseTime),
            Ok(Record::new(RecordType::Call, vec![name("a")], u64::MAX)),
        ]
    );
}

#[test]
fn write_records_of_calls() {
    let program = vec![
        Instruction::Close(
            0,
            vec![
                Instruction::Constant(42),
                Instruction::Apply(Operand::Global(ID), true),
            ],
        ),
        Instruction::Apply(Operand::Global(CLOSE), false),
        Instruction::Store(Operand::Global(100)),
        Instruction::Constant(0),
        Instruction::Apply(Operand::Global(100), false),
        Instruction::Halt,
    ];
    let mut vm = Vm::new(
        vec![Value::default(); 128],
        SmallPrimitiveSet::new(FixedBufferDevice::new(16)),
    )
    .unwrap();
    let mut profiler = WriteProfiler::new(VoidTime::new());

    vm.load(&Program::new(vec![], program)).unwrap();

    assert_eq!(vm.run_with(&mut profiler, 1000), Ok(true));
    assert_eq!(
        String::from_utf8(profiler.take()).unwrap(),
        "call\t<top>\t0\nreturn\t<top>\t0\n"
    );
    assert_eq!(profiler.buffer().len(), 0);
}

#[test]
fn write_names_of_procedures() {
    let mut symbols = vec![String::new(); 30];

    symbols.push("foo λ".to_string());

    let program = Program::new(
        symbols,
        vec![
            Instruction::Close(
                0,
                vec![
                    Instruction::Constant(1),
                    Instruction::Apply(Operand::Global(ID), true),
                ],
            ),
            Instruction::Apply(Operand::Global(CLOSE), false),
            Instruction::Store(Operand::Global(31)),
            Instruction::Close(
                0,
                vec![
                    Instruction::Constant(0),
                    Instruction::Apply(Operand::Global(31), false),
                    Instruction::Apply(Operand::Global(ID), true),
                ],
            ),
            Instruction::Apply(Operand::Global(CLOSE), false),
            Instruction::Store(Operand::Global(30)),
            Instruction::Constant(0),
            Instruction::Apply(Operand::Global(30), false),
            Instruction::Halt,
        ],
    );
    let mut vm = Vm::new(
        vec![Value::default(); 256],
        SmallPrimitiveSet::new(FixedBufferDevice::new(16)),
    )
    .unwrap();
    let mut profiler = WriteProfiler::new(VoidTime::new());

    vm.load(&program).unwrap();

    assert_eq!(vm.run_with(&mut profiler, 1000), Ok(true));
    assert_eq!(
        String::from_utf8(profiler.take()).unwrap(),
        "call\t<top>\t0\ncall\tfoo λ;<top>\t0\nreturn\tfoo λ;<top>\t0\nreturn\t<top>\t0\n"
    );
    assert_eq!(vm.pop(), Ok(stak::vm::Number::new(1).into()));
}

#[test]
fn write_characters_of_names() {
    use_names();
}

fn use_names() {
    let mut vm = Vm::new(
        vec![Value::default(); 128],
        SmallPrimitiveSet::new(FixedBufferDevice::new(16)),
    )
    .unwrap();
    let null = vm.memory().null();
    let numbers = [0x41, 0xe9, 0x3bb, 0x1f600, 0xd800, 0x110000, u64::MAX];

    vm.memory.reserve_cells(16).unwrap();

    let name = vm.memory.build_numbers(&numbers);
    let variable = vm
        .allocate(stak::vm::Number::new(0).into(), name.set_tag(3).into())
        .unwrap();
    let caller = vm.allocate(variable.into(), null.into()).unwrap();
    let saved = vm.allocate(caller.into(), null.into()).unwrap();
    let frame = vm
        .allocate(saved.into(), null.set_tag(1).into())
        .unwrap();

    vm.memory.set_stack(frame);

    let mut buffer = vec![];

    stak::profiler::trace::write_trace(&mut buffer, vm.memory());

    assert_eq!(
        String::from_utf8(buffer).unwrap(),
        "Aéλ😀\u{fffd}\u{fffd}\u{fffd};"
    );
}
