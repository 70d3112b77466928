use regvm::vm::parser::{parse_instructions, Constant, Register};
use regvm::vm::{ExecError, RunOutcome, Vm};

const FUEL: usize = 10_000;

fn r(name: &str) -> Register {
    Register::of(name.to_string())
}

#[test]
fn super_quick_parse_exec_test() {
    let instructions = vec![
        "mov a 9999",
        "mov b -10",
        "add a b",
        "print a",
        "mov a 10",
        "print a",
    ];

    let instructions = parse_instructions(instructions).unwrap();
    let mut vm = Vm::new();
    let outcome = vm.interpret(&instructions, 0, FUEL);
    assert_eq!(outcome, Ok(RunOutcome::Halted));
}

#[test]
fn test_mov() {
    let instructions = parse_instructions(vec!["mov a 1", "mov b a"]).unwrap();
    let a = r("a");
    let b = r("b");

    let mut vm = Vm::new();
    vm.interpret(&instructions, 0, FUEL).unwrap();
    assert_eq!(vm.pc(), 2);
    assert_eq!(vm.get(&a).unwrap(), Constant::of(1));
    assert_eq!(vm.get(&b).unwrap(), Constant::of(1));
}

#[test]
fn test_add() {
    let instructions = parse_instructions(vec!["mov a 1", "mov b a", "add a b"]).unwrap();
    let a = r("a");
    let b = r("b");

    let mut vm = Vm::new();
    vm.interpret(&instructions, 0, FUEL).unwrap();
    assert_eq!(vm.pc(), 3);
    assert_eq!(vm.get(&a).unwrap(), Constant::of(2));
    assert_eq!(vm.get(&b).unwrap(), Constant::of(1));
}

#[test]
fn test_jump() {
    let instructions =
        parse_instructions(vec!["mov a 1", "mov b a", "jnz b 2", "add a b", "mov c 0"]).unwrap();
    let a = r("a");
    let b = r("b");
    let c = r("c");

    let mut vm = Vm::new();
    vm.interpret(&instructions, 0, FUEL).unwrap();
    assert_eq!(vm.pc(), 5);
    assert_eq!(vm.get(&a).unwrap(), Constant::of(1));
    assert_eq!(vm.get(&b).unwrap(), Constant::of(1));
    assert_eq!(vm.get(&c).unwrap(), Constant::of(0));
}

#[test]
fn test_backward_jump() {
    let instructions =
        parse_instructions(vec!["mov a 2", "mov b -1", "add a b", "jnz a -1"]).unwrap();

    let a = r("a");
    let b = r("b");
    let mut vm = Vm::new();
    vm.interpret(&instructions, 0, FUEL).unwrap();
    assert_eq!(vm.pc(), 4);
    assert_eq!(vm.get(&a).unwrap(), Constant::of(0));
    assert_eq!(vm.get(&b).unwrap(), Constant::of(-1));
}

#[test]
fn test_two_constant_movs() {
    let instructions = parse_instructions(vec!["mov a 7", "mov b -3"]).unwrap();
    let mut vm = Vm::new();
    let outcome = vm.interpret(&instructions, 0, FUEL);
    assert_eq!(outcome, Ok(RunOutcome::Halted));
    assert_eq!(vm.pc(), 2);
    assert_eq!(vm.get(&r("a")).unwrap(), Constant::of(7));
    assert_eq!(vm.get(&r("b")).unwrap(), Constant::of(-3));
}

#[test]
fn test_add_wraps_around() {
    let instructions =
        parse_instructions(vec!["mov a 2147483647", "mov b 1", "add a b"]).unwrap();
    let mut vm = Vm::new();
    let outcome = vm.interpret(&instructions, 0, FUEL);
    assert_eq!(outcome, Ok(RunOutcome::Halted));
    assert_eq!(vm.get(&r("a")).unwrap(), Constant::of(-2147483648));
}

#[test]
fn test_print_emits_characters() {
    let instructions =
        parse_instructions(vec!["mov a 72", "print a", "mov b 105", "print b"]).unwrap();
    let mut vm = Vm::new();
    vm.interpret(&instructions, 0, FUEL).unwrap();
    assert_eq!(vm.output(), &vec!['H', 'i']);
}

#[test]
fn test_print_unbound_register_is_noop() {
    let instructions = parse_instructions(vec!["print z", "mov a 1"]).unwrap();
    let mut vm = Vm::new();
    let outcome = vm.interpret(&instructions, 0, FUEL);
    assert_eq!(outcome, Ok(RunOutcome::Halted));
    assert_eq!(vm.pc(), 2);
    assert!(vm.output().is_empty());
}

#[test]
fn test_print_negative_is_fatal() {
    let instructions = parse_instructions(vec!["mov a -1", "print a"]).unwrap();
    let mut vm = Vm::new();
    let outcome = vm.interpret(&instructions, 0, FUEL);
    assert_eq!(
        outcome,
        Err(ExecError::InvalidCodePoint(r("a"), Constant::of(-1)))
    );
}

#[test]
fn test_print_surrogate_is_fatal() {
    let instructions = parse_instructions(vec!["mov a 55296", "print a"]).unwrap();
    let mut vm = Vm::new();
    let outcome = vm.interpret(&instructions, 0, FUEL);
    assert_eq!(
        outcome,
        Err(ExecError::InvalidCodePoint(r("a"), Constant::of(55296)))
    );
}

#[test]
fn test_mov_unbound_source_is_fatal() {
    let instructions = parse_instructions(vec!["mov a b"]).unwrap();
    let mut vm = Vm::new();
    let outcome = vm.interpret(&instructions, 0, FUEL);
    assert_eq!(outcome, Err(ExecError::UninitialisedRegister(r("b"))));
}

#[test]
fn test_add_unbound_source_is_fatal() {
    let instructions = parse_instructions(vec!["mov a 1", "add a b"]).unwrap();
    let mut vm = Vm::new();
    let outcome = vm.interpret(&instructions, 0, FUEL);
    assert_eq!(
        outcome,
        Err(ExecError::AddUninitialised(None, Some(r("b")), 2))
    );
}

#[test]
fn test_add_both_unbound_is_fatal() {
    let instructions = parse_instructions(vec!["add a b"]).unwrap();
    let mut vm = Vm::new();
    let outcome = vm.interpret(&instructions, 0, FUEL);
    assert_eq!(
        outcome,
        Err(ExecError::AddUninitialised(Some(r("a")), Some(r("b")), 1))
    );
}

#[test]
fn test_jnz_unbound_register_is_fatal() {
    let instructions = parse_instructions(vec!["jnz q 1"]).unwrap();
    let mut vm = Vm::new();
    let outcome = vm.interpret(&instructions, 0, FUEL);
    assert_eq!(outcome, Err(ExecError::UninitialisedRegister(r("q"))));
}

#[test]
fn test_jump_too_far_is_fatal() {
    let instructions = parse_instructions(vec!["mov a 1", "jnz a 5"]).unwrap();
    let mut vm = Vm::new();
    let outcome = vm.interpret(&instructions, 0, FUEL);
    assert_eq!(outcome, Err(ExecError::JumpTooFar(Constant::of(5))));
}

#[test]
fn test_jump_below_zero_is_fatal() {
    let instructions = parse_instructions(vec!["mov a 1", "jnz a -5"]).unwrap();
    let mut vm = Vm::new();
    let outcome = vm.interpret(&instructions, 0, FUEL);
    assert_eq!(outcome, Err(ExecError::CouldNotJump(Constant::of(-5))));
}

#[test]
fn test_jump_exactly_to_end_halts() {
    let instructions = parse_instructions(vec!["mov a 1", "jnz a 1"]).unwrap();
    let mut vm = Vm::new();
    let outcome = vm.interpret(&instructions, 0, FUEL);
    assert_eq!(outcome, Ok(RunOutcome::Halted));
    assert_eq!(vm.pc(), 2);
}

#[test]
fn test_jnz_zero_test_falls_through() {
    let instructions = parse_instructions(vec!["jnz 0 50", "mov a 3"]).unwrap();
    let mut vm = Vm::new();
    let outcome = vm.interpret(&instructions, 0, FUEL);
    assert_eq!(outcome, Ok(RunOutcome::Halted));
    assert_eq!(vm.get(&r("a")).unwrap(), Constant::of(3));
}

#[test]
fn test_self_loop_runs_out_of_fuel() {
    let instructions = parse_instructions(vec!["mov a 1", "jnz a 0"]).unwrap();
    let mut vm = Vm::new();
    let outcome = vm.interpret(&instructions, 0, 100);
    assert_eq!(outcome, Ok(RunOutcome::OutOfFuel));
}

#[test]
fn test_start_pc_skips_earlier_instructions() {
    let instructions = parse_instructions(vec!["mov a 1", "mov b 2"]).unwrap();
    let mut vm = Vm::new();
    let outcome = vm.interpret(&instructions, 1, FUEL);
    assert_eq!(outcome, Ok(RunOutcome::Halted));
    assert_eq!(vm.get(&r("a")), None);
    assert_eq!(vm.get(&r("b")).unwrap(), Constant::of(2));
}

#[test]
fn test_start_pc_past_end_halts_at_once() {
    let instructions = parse_instructions(vec!["mov a 1"]).unwrap();
    let mut vm = Vm::new();
    let outcome = vm.interpret(&instructions, 7, FUEL);
    assert_eq!(outcome, Ok(RunOutcome::Halted));
    assert_eq!(vm.pc(), 7);
    assert_eq!(vm.get(&r("a")), None);
}
