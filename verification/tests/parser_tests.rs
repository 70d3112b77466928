use regvm::vm::parser::{
    parse_instructions, ConstOrReg, Constant, Instruction, ParseError, Register,
};

fn reg(name: &str) -> Register {
    Register::of(name.to_string())
}

#[test]
fn test_parse_instructions() {
    let input = vec!["mov a 1", "mov b a", "jnz b 2", "add a b", "mov c 0"];
    let a = reg("a");
    let b = reg("b");
    let c = reg("c");

    let instructions = parse_instructions(input).unwrap();
    assert_eq!(
        instructions,
        vec![
            Instruction::Mov(a.clone(), ConstOrReg::Const(Constant::of(1))),
            Instruction::Mov(b.clone(), ConstOrReg::Reg(a.clone())),
            Instruction::Jnz(
                ConstOrReg::Reg(b.clone()),
                ConstOrReg::Const(Constant::of(2))
            ),
            Instruction::Add(a, b),
            Instruction::Mov(c, ConstOrReg::Const(Constant::of(0))),
        ]
    );
}

#[test]
fn test_unknown_instruction() {
    let instructions = parse_instructions(vec!["mov a 1", "mbx a 2"]);
    let actual_err = instructions.err().unwrap();

    assert_eq!(
        actual_err,
        ParseError::InstructionNotFoundOrWrongArgs(
            "Not found instruction or wrong args on line 1, error: mbx a 2".to_string()
        )
    )
}

#[test]
fn test_empty_input() {
    assert_eq!(parse_instructions(vec![]), Err(ParseError::EmptyInput))
}

#[test]
fn test_empty_line_in_input() {
    assert_eq!(
        parse_instructions(vec!["mov a 1", ""]),
        Err(ParseError::EmptyLine(1))
    )
}

#[test]
fn test_incorrect_args() {
    assert_eq!(
        parse_instructions(vec!["mov 1 1"]),
        Err(ParseError::IncorrectArgument(
            "Failed to parse 1, with error: Parsing failure, register value should be alphabetic"
                .to_string()
        ))
    )
}

#[test]
fn test_numeric_token_is_constant() {
    // `5` must resolve as a constant, never as a register named "5".
    let instructions = parse_instructions(vec!["mov a 5"]).unwrap();
    assert_eq!(
        instructions,
        vec![Instruction::Mov(reg("a"), ConstOrReg::Const(Constant::of(5)))]
    );
}

#[test]
fn test_int_boundaries() {
    let instructions = parse_instructions(vec!["mov a 2147483647", "mov b -2147483648"]).unwrap();
    assert_eq!(
        instructions,
        vec![
            Instruction::Mov(reg("a"), ConstOrReg::Const(Constant::of(i32::MAX))),
            Instruction::Mov(reg("b"), ConstOrReg::Const(Constant::of(i32::MIN))),
        ]
    );
}

#[test]
fn test_int_out_of_range_is_incorrect_argument() {
    // Too large for 32 bits, and not alphabetic either.
    assert_eq!(
        parse_instructions(vec!["mov a 2147483648"]),
        Err(ParseError::IncorrectArgument(
            "Failed to parse 2147483648, with error: Parsing failure, register value should be alphabetic"
                .to_string()
        ))
    );
}

#[test]
fn test_plus_sign_is_incorrect_argument() {
    assert_eq!(
        parse_instructions(vec!["mov a +5"]),
        Err(ParseError::IncorrectArgument(
            "Failed to parse +5, with error: Parsing failure, register value should be alphabetic"
                .to_string()
        ))
    );
}

#[test]
fn test_wrong_operand_count() {
    let err = parse_instructions(vec!["mov a"]).err().unwrap();
    assert_eq!(
        err,
        ParseError::InstructionNotFoundOrWrongArgs(
            "Not found instruction or wrong args on line 0, error: mov a".to_string()
        )
    );
}

#[test]
fn test_extra_whitespace_between_tokens() {
    let instructions = parse_instructions(vec!["  mov \t a   7  "]).unwrap();
    assert_eq!(
        instructions,
        vec![Instruction::Mov(reg("a"), ConstOrReg::Const(Constant::of(7)))]
    );
}

#[test]
fn test_round_trip_canonical_text() {
    let input = vec![
        "mov a 1",
        "mov b a",
        "jnz b 2",
        "add a b",
        "mov c -17",
        "print a",
        "jnz -3 0",
    ];
    let instructions = parse_instructions(input).unwrap();
    let lines: Vec<String> = instructions.iter().map(|i| i.to_line()).collect();
    let reparsed = parse_instructions(lines.iter().map(|s| s.as_str()).collect()).unwrap();
    assert_eq!(instructions, reparsed);
}

#[test]
fn test_to_line_is_canonical() {
    let instructions = parse_instructions(vec!["  mov   a   -17 "]).unwrap();
    assert_eq!(instructions[0].to_line(), "mov a -17".to_string());
}
