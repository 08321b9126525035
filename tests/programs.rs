use termedit::assembly::parser::{parse_program, Instr};
use termedit::assembly::vm::Vm;
use termedit::console::commands::{help_text, parse_line, Command};

#[test]
fn parse_program_reads_each_line() {
    let p = parse_program("nop\n  load.i32 5\nload.i32 -7\n\n# note\nadd\nhalt\nfoo bar\nload.i32 x\nload.i32 +3\r\n");
    assert_eq!(
        p.instructions,
        vec![
            Instr::Nop,
            Instr::LoadI32(5),
            Instr::LoadI32(-7),
            Instr::Add,
            Instr::Halt,
            Instr::Nop,
            Instr::LoadI32(0),
            Instr::LoadI32(3),
        ]
    );
}

#[test]
fn parse_program_out_of_range_literal_is_zero() {
    let p = parse_program("load.i32 2147483648\nload.i32 -2147483648");
    assert_eq!(p.instructions, vec![Instr::LoadI32(0), Instr::LoadI32(i32::MIN)]);
}

#[test]
fn vm_adds_and_halts() {
    let p = parse_program("load.i32 2\nload.i32 3\nadd\nhalt\nload.i32 9");
    let mut vm = Vm::new();
    let r = vm.run(&p);
    assert!(r.halted);
    assert_eq!(r.stack, vec![5]);
}

#[test]
fn vm_add_on_short_stack_and_wraps() {
    let p = parse_program("load.i32 4\nadd\nadd");
    let mut vm = Vm::new();
    let r = vm.run(&p);
    assert!(!r.halted);
    assert_eq!(r.stack, vec![4]);
    let q = parse_program("load.i32 2147483647\nload.i32 1\nadd");
    vm.reset();
    assert_eq!(vm.run(&q).stack, vec![i32::MIN]);
}

#[test]
fn vm_reset_runs_again() {
    let p = parse_program("load.i32 1\nhalt");
    let mut vm = Vm::new();
    assert_eq!(vm.run(&p).stack, vec![1]);
    assert_eq!(vm.run(&p).stack, vec![1]);
    vm.reset();
    let r = vm.run(&p);
    assert!(r.halted);
    assert_eq!(r.stack, vec![1]);
}

#[test]
fn console_lines() {
    assert!(parse_line("   ").is_none());
    assert!(matches!(parse_line(" help "), Some(Command::Help)));
    assert!(matches!(parse_line("?"), Some(Command::Help)));
    match parse_line("  tab:list \n") {
        Some(Command::Input(s)) => assert_eq!(s, "tab:list"),
        _ => panic!("expected input"),
    }
    assert!(help_text().starts_with("commands:\n  help | ?"));
}
