use stak::code::{
    decode, encode, Error, Instruction, Operand, Program, INSTRUCTION_BITS, INSTRUCTION_MASK,
    INTEGER_BASE,
};

fn text(instructions: &[Instruction]) -> String {
    format!("{:?}", instructions)
}

fn encode_instructions(instructions: Vec<Instruction>) -> Vec<u8> {
    encode(&Program::new(vec![], instructions))
}

fn decode_instructions(codes: &[u8]) -> Result<String, Error> {
    let program = decode(codes)?;

    assert!(program.symbols().is_empty());

    Ok(text(program.instructions()))
}

fn round_trip(symbols: Vec<&str>, instructions: Vec<Instruction>) {
    let program = Program::new(
        symbols.into_iter().map(ToString::to_string).collect(),
        instructions,
    );

    assert_eq!(
        format!("{:?}", decode(&encode(&program)).unwrap()),
        format!("{:?}", program)
    );
}

#[test]
fn mask() {
    assert_eq!(INSTRUCTION_MASK, 0b1111);
}

#[test]
fn constants() {
    assert_eq!(INSTRUCTION_BITS, 4);
    assert_eq!(INTEGER_BASE, 128);
}

#[test]
fn encode_scenario() {
    let program = vec![
        Instruction::Constant(1),
        Instruction::Constant(2),
        Instruction::Apply(Operand::Global(12), true),
    ];

    assert_eq!(
        encode_instructions(program),
        vec![1, 0, 2, 0, 12, 8]
    );
}

#[test]
fn encode_nothing() {
    assert_eq!(encode_instructions(vec![]), Vec::<u8>::new());
    assert_eq!(decode_instructions(&[]), Ok("[]".to_string()));
}

#[test]
fn encode_integer_of_two_digits() {
    assert_eq!(
        encode_instructions(vec![Instruction::Constant(300)]),
        vec![128 + 44, 2, 0]
    );
}

#[test]
fn encode_integer_of_ten_digits() {
    assert_eq!(
        encode_instructions(vec![Instruction::Constant(u64::MAX)]),
        vec![255, 255, 255, 255, 255, 255, 255, 255, 255, 1, 0]
    );
}

#[test]
fn encode_operands() {
    assert_eq!(
        encode_instructions(vec![Instruction::Get(Operand::Global(5))]),
        vec![5, 1]
    );
    assert_eq!(
        encode_instructions(vec![Instruction::Store(Operand::Local(0))]),
        vec![128, 128, 128, 128, 128, 128, 128, 128, 128, 1, 2]
    );
    assert_eq!(
        encode_instructions(vec![Instruction::Get(Operand::Local(1))]),
        vec![255, 255, 255, 255, 255, 255, 255, 255, 255, 1, 1]
    );
}

#[test]
fn encode_branch() {
    let program = vec![
        Instruction::If(vec![Instruction::Halt]),
        Instruction::Constant(1),
        Instruction::Halt,
    ];

    assert_eq!(encode_instructions(program), vec![0, 9, 1, 3, 1, 0, 0, 9]);
}

#[test]
fn encode_close() {
    let program = vec![
        Instruction::Close(2, vec![Instruction::Skip(1)]),
        Instruction::Nop(0),
        Instruction::Halt,
    ];

    assert_eq!(
        encode_instructions(program),
        vec![1, 7, 2, 6, 1, 0, 4, 0, 9]
    );
}

#[test]
fn round_trip_simple() {
    round_trip(vec![], vec![
        Instruction::Constant(1),
        Instruction::Constant(2),
        Instruction::Apply(Operand::Global(12), true),
    ]);
}

#[test]
fn round_trip_nested() {
    round_trip(vec!["foo", "", "λ → ∀"], vec![
        Instruction::Constant(300),
        Instruction::Get(Operand::Local(0)),
        Instruction::Store(Operand::Global(1 << 40)),
        Instruction::If(vec![
            Instruction::Nop(7),
            Instruction::If(vec![Instruction::Skip(2)]),
            Instruction::Apply(Operand::Local(3), true),
        ]),
        Instruction::Close(
            2,
            vec![
                Instruction::Close(0, vec![Instruction::Halt]),
                Instruction::Apply(Operand::Global(0), false),
                Instruction::Apply(Operand::Global(22), true),
            ],
        ),
        Instruction::Constant(u64::MAX),
        Instruction::Halt,
    ]);
}

#[test]
fn decode_instructions_without_end() {
    assert_eq!(
        decode_instructions(&[1, 0, 2, 0]).unwrap(),
        text(&[Instruction::Constant(1), Instruction::Constant(2)])
    );
}

#[test]
fn decode_instructions_behind_end() {
    assert_eq!(
        decode_instructions(&[0, 9, 1, 0]).unwrap(),
        text(&[Instruction::Halt, Instruction::Constant(1)])
    );
}

#[test]
fn decode_reserved_bits() {
    assert_eq!(
        decode_instructions(&[1, 0x70]).unwrap(),
        text(&[Instruction::Constant(1)])
    );
}

#[test]
fn decode_truncated() {
    assert!(matches!(decode(&[128 + 1]), Err(Error::EndOfInput)));
    assert!(matches!(decode(&[1]), Err(Error::EndOfInput)));
    assert!(matches!(decode(&[128 + 1, 2]), Err(Error::EndOfInput)));
}

#[test]
fn decode_open_branch() {
    assert!(matches!(decode(&[0, 6]), Err(Error::EndOfInput)));
    assert!(matches!(decode(&[0, 6, 128]), Err(Error::EndOfInput)));
}

#[test]
fn decode_illegal_instruction() {
    assert!(matches!(decode(&[0, 15]), Err(Error::IllegalInstruction)));
    assert!(matches!(decode(&[0, 11]), Err(Error::IllegalInstruction)));
}

#[test]
fn decode_missing_closure_body() {
    assert!(matches!(decode(&[0, 6, 1]), Err(Error::MissingClosureBody)));
    assert!(matches!(
        decode(&[0, 9, 0, 6, 2]),
        Err(Error::MissingClosureBody)
    ));
}

#[test]
fn decode_missing_integer() {
    assert!(matches!(
        decode(&[255, 255, 255, 255, 255, 255, 255, 255, 255, 2, 7]),
        Err(Error::MissingInteger)
    ));
    assert!(matches!(
        decode(&[0, 6, 255, 255, 255, 255, 255, 255, 255, 255, 255, 2]),
        Err(Error::MissingInteger)
    ));
}

#[test]
fn decode_integer_too_large() {
    assert!(matches!(
        decode(&[255, 255, 255, 255, 255, 255, 255, 255, 255, 2, 0]),
        Err(Error::MissingInteger)
    ));
    assert!(matches!(
        decode(&[128, 128, 128, 128, 128, 128, 128, 128, 128, 128, 0, 0]),
        Err(Error::MissingInteger)
    ));
}

#[test]
fn decode_missing_operand() {
    assert!(matches!(
        decode(&[255, 255, 255, 255, 255, 255, 255, 255, 255, 2, 1]),
        Err(Error::MissingOperand)
    ));
    assert!(matches!(
        decode(&[255, 255, 255, 255, 255, 255, 255, 255, 255, 2, 8]),
        Err(Error::MissingOperand)
    ));
}

#[test]
fn decode_missing_else_branch() {
    assert!(matches!(decode(&[1, 3]), Err(Error::MissingElseBranch)));
    assert!(matches!(
        decode(&[0, 9, 2, 3]),
        Err(Error::MissingElseBranch)
    ));
}

#[test]
fn error_text() {
    assert_eq!(Error::EndOfInput.to_string(), "unexpected end of input");
    assert_eq!(Error::IllegalInstruction.to_string(), "illegal instruction");
    assert_eq!(Error::MissingClosureBody.to_string(), "missing closure body");
    assert_eq!(Error::MissingInteger.to_string(), "missing integer");
    assert_eq!(Error::MissingOperand.to_string(), "missing operand");
    assert_eq!(Error::MissingElseBranch.to_string(), "missing else branch");
    assert_eq!(Error::Utf8.to_string(), "invalid utf-8 sequence");
}

#[test]
fn display_instructions() {
    let program = vec![
        Instruction::Constant(1),
        Instruction::If(vec![
            Instruction::Get(Operand::Local(2)),
            Instruction::Apply(Operand::Global(3), true),
        ]),
        Instruction::Close(2, vec![Instruction::Halt]),
        Instruction::Store(Operand::Global(4)),
        Instruction::Nop(5),
        Instruction::Apply(Operand::Global(6), false),
        Instruction::Skip(7),
    ];

    assert_eq!(
        Instruction::display_slice(&program),
        "\n- constant 1\n- if\n  - get local 2\n  - return call global 3\n- close 2\n  - halt\n- set global 4\n- nop 5\n- call global 6\n- skip 7"
    );
}

#[test]
fn encode_symbols() {
    let program = Program::new(
        vec!["foo".to_string(), "".to_string(), "é".to_string()],
        vec![Instruction::Halt],
    );

    assert_eq!(
        encode(&program),
        vec![3, 10, 102, 111, 111, 0, 10, 2, 10, 0xc3, 0xa9, 0, 9]
    );
}

#[test]
fn decode_symbols() {
    let program = decode(&[3, 10, 102, 111, 111, 1, 0, 0, 10]).unwrap();

    assert_eq!(program.symbols(), &vec!["foo".to_string(), "".to_string()]);
    assert_eq!(
        text(program.instructions()),
        text(&[Instruction::Constant(1)])
    );
}

#[test]
fn decode_symbol_of_invalid_text() {
    assert!(matches!(decode(&[1, 10, 0xff]), Err(Error::Utf8)));
    assert!(matches!(decode(&[1, 10, 0xc3, 0, 9]), Err(Error::Utf8)));
}

#[test]
fn decode_symbol_cut_short() {
    assert!(matches!(
        decode(&[3, 10, 102, 111]),
        Err(Error::EndOfInput)
    ));
    assert!(matches!(
        decode(&[255, 255, 255, 255, 255, 255, 255, 255, 255, 2, 10]),
        Err(Error::MissingInteger)
    ));
}

#[test]
fn encode_in_order() {
    let first = vec![Instruction::Constant(5), Instruction::Get(Operand::Local(1))];
    let second = vec![Instruction::Store(Operand::Global(7))];
    let mut both = encode_instructions(first);

    both.extend(encode_instructions(second));

    assert_eq!(
        encode_instructions(vec![
            Instruction::Constant(5),
            Instruction::Get(Operand::Local(1)),
            Instruction::Store(Operand::Global(7)),
        ]),
        both
    );
}

#[test]
fn encode_integer_behind_bytes() {
    let mut codes = vec![9];

    stak::code::encode::encode_integer(&mut codes, 5);
    assert_eq!(codes, vec![9, 5]);
    stak::code::encode::encode_integer(&mut codes, 0);
    assert_eq!(codes, vec![9, 5, 0]);
    stak::code::encode::encode_integer(&mut codes, 16384);
    assert_eq!(codes, vec![9, 5, 0, 128, 128, 1]);
    stak::code::encode::encode_integer(&mut codes, 133);
    assert_eq!(codes, vec![9, 5, 0, 128, 128, 1, 133, 1]);
}

#[test]
fn encode_local_and_global_operands() {
    for number in [0, 1, 2, 127, 128, (1 << 63) - 1] {
        let mut global = vec![];
        let mut local = vec![];

        stak::code::encode::encode_operand(&mut global, Operand::Global(number), 1);
        stak::code::encode::encode_operand(&mut local, Operand::Local(number), 1);

        assert_ne!(global, local);
        assert_eq!(
            text(decode(&global).unwrap().instructions()),
            text(&[Instruction::Get(Operand::Global(number))])
        );
        assert_eq!(
            text(decode(&local).unwrap().instructions()),
            text(&[Instruction::Get(Operand::Local(number))])
        );
    }
}

#[test]
fn round_trip_without_end() {
    round_trip(vec![], vec![
        Instruction::Constant(1),
        Instruction::If(vec![Instruction::Constant(2)]),
        Instruction::Close(1, vec![]),
        Instruction::Halt,
        Instruction::Nop(3),
    ]);
}

#[test]
fn short_integer_base() {
    assert_eq!(stak::code::SHORT_INTEGER_BASE, 8);
}
