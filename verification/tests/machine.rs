use tape_machine::error::Error;
use tape_machine::interpreter::{Interpreter, DEFAULT_MEMORY_SIZE};
use tape_machine::parser::{parse, Token};

fn machine(source: &str) -> Interpreter {
    Interpreter::new(parse(source), None)
}

#[test]
fn new_machine_is_at_rest() {
    let vm = machine("+");
    assert_eq!(DEFAULT_MEMORY_SIZE, 30_000);
    assert_eq!(vm.memory.len(), 30_000);
    assert!(vm.memory.iter().all(|cell| *cell == 0));
    assert_eq!(vm.mp, 0);
    assert_eq!(vm.ip, 0);
    assert_eq!(vm.code, vec![Token::IncreaseValue]);
    let small = Interpreter::new(parse(""), Some(3));
    assert_eq!(small.memory, vec![0, 0, 0]);
}

#[test]
fn increments_wrap_around_after_256() {
    let mut vm = machine(&"+".repeat(256));
    vm.run(|_| Ok(())).unwrap();
    assert_eq!(*vm.get_memory(0).unwrap(), 0);
    assert_eq!(vm.ip, 256);
}

#[test]
fn increments_reach_255() {
    let mut vm = machine(&"+".repeat(255));
    vm.run(|_| Ok(())).unwrap();
    assert_eq!(*vm.get_memory(0).unwrap(), 255);
}

#[test]
fn decrements_wrap_around() {
    let mut vm = machine("---");
    vm.run(|_| Ok(())).unwrap();
    assert_eq!(*vm.get_memory(0).unwrap(), 253);
    let mut vm = machine(&"-".repeat(256));
    vm.run(|_| Ok(())).unwrap();
    assert_eq!(*vm.get_memory(0).unwrap(), 0);
}

#[test]
fn data_pointer_rests_without_moves() {
    let mut vm = machine("+++[-]++[-]-");
    vm.mp = 17;
    vm.run(|_| Ok(())).unwrap();
    assert_eq!(vm.mp, 17);
    assert_eq!(vm.memory[17], 255);
}

#[test]
fn left_move_fails_at_its_own_address() {
    let mut vm = machine("+>+<<");
    assert_eq!(vm.run(|_| Ok(())).unwrap_err(), Error::OutsideBounds(4));
    assert_eq!(vm.ip, 4);
    assert_eq!(vm.mp, 0);
    assert_eq!(&vm.memory[..2], &[1, 1]);
}

#[test]
fn right_move_fails_on_the_last_cell() {
    let mut vm = Interpreter::new(parse("x>y>z>"), Some(3));
    assert_eq!(vm.run(|_| Ok(())).unwrap_err(), Error::OutsideBounds(2));
    assert_eq!(vm.mp, 2);
    assert_eq!(vm.ip, 2);
}

#[test]
fn stray_loop_end_fails_at_its_own_address() {
    let mut vm = machine("]");
    assert_eq!(vm.run(|_| Ok(())).unwrap_err(), Error::ExpectedLoopStart(0));
    let mut vm = machine("some text + more text - and then ] the end");
    assert_eq!(vm.run(|_| Ok(())).unwrap_err(), Error::ExpectedLoopStart(2));
    assert_eq!(vm.ip, 2);
}

#[test]
fn loop_entered_on_zero_pushes_nothing() {
    let mut vm = machine("[]");
    vm.step().unwrap();
    assert_eq!(vm.ip, 1);
    assert_eq!(vm.step().unwrap_err(), Error::ExpectedLoopStart(1));
}

#[test]
fn loop_end_jumps_back_while_cell_is_not_zero() {
    let mut vm = machine("++[-]");
    vm.step().unwrap();
    vm.step().unwrap();
    vm.step().unwrap();
    assert_eq!(vm.ip, 3);
    vm.step().unwrap();
    assert_eq!(vm.memory[0], 1);
    vm.step().unwrap();
    assert_eq!(vm.ip, 3);
    vm.step().unwrap();
    assert_eq!(vm.memory[0], 0);
    vm.step().unwrap();
    assert_eq!(vm.ip, 5);
}

#[test]
fn nested_loops_multiply() {
    let mut vm = machine("+++[>++++[>+++<-]<-]");
    vm.run(|_| Ok(())).unwrap();
    assert_eq!(&vm.memory[..3], &[0, 0, 36]);
    assert_eq!(vm.mp, 0);
    assert_eq!(vm.ip, 20);
}

#[test]
fn input_is_read_byte_by_byte() {
    let mut vm = machine(",>,");
    vm.push_input(65);
    vm.push_input(66);
    vm.run(|_| Ok(())).unwrap();
    assert_eq!(&vm.memory[..2], &[65, 66]);
}

#[test]
fn empty_input_is_an_io_error() {
    let mut vm = machine("+,");
    assert!(!vm.awaits_input());
    vm.step().unwrap();
    assert!(vm.awaits_input());
    assert_eq!(vm.run(|_| Ok(())).unwrap_err(), Error::Io);
    assert_eq!(vm.ip, 1);
    assert_eq!(vm.memory[0], 1);
    vm.push_input(9);
    assert!(!vm.awaits_input());
    vm.run(|_| Ok(())).unwrap();
    assert_eq!(vm.memory[0], 9);
    assert!(!vm.awaits_input());
}

#[test]
fn output_is_written_in_order() {
    let mut vm = machine("+.+.>.");
    vm.run(|_| Ok(())).unwrap();
    assert_eq!(vm.take_output(), vec![1, 2, 0]);
    assert_eq!(vm.take_output(), Vec::<u8>::new());
}

#[test]
fn input_is_echoed() {
    let mut vm = machine(",[.,]");
    for byte in [104, 105, 0] {
        vm.push_input(byte);
    }
    vm.run(|_| Ok(())).unwrap();
    assert_eq!(vm.take_output(), vec![104, 105]);
}

#[test]
fn watchdog_stops_the_run() {
    let mut vm = machine("+[]");
    let result = vm.run(|vm| if vm.ip == 2 { Err(()) } else { Ok(()) });
    assert!(matches!(result, Err(Error::WatchdogError)));
    assert_eq!(vm.ip, 2);
    assert_eq!(vm.memory[0], 1);
}

#[test]
fn watchdog_is_asked_before_the_first_instruction() {
    let mut vm = machine("+");
    assert!(matches!(vm.run(|_| Err(())), Err(Error::WatchdogError)));
    assert_eq!(vm.ip, 0);
    assert_eq!(vm.memory[0], 0);
}

#[test]
fn watchdog_is_not_asked_after_the_end() {
    let mut vm = machine("");
    assert!(vm.run(|_| Err(())).is_ok());
}

#[test]
fn evaluate_executes_any_instruction() {
    let mut vm = machine("");
    vm.evaluate(Token::IncreaseValue).unwrap();
    vm.evaluate(Token::MoveRight).unwrap();
    vm.evaluate(Token::DecreaseValue).unwrap();
    assert_eq!(&vm.memory[..2], &[1, 255]);
    assert_eq!(vm.mp, 1);
    assert_eq!(vm.ip, 3);
    assert_eq!(vm.evaluate(Token::JumpBack).unwrap_err(), Error::ExpectedLoopStart(3));
    assert_eq!(vm.evaluate(Token::GetInput).unwrap_err(), Error::Io);
    assert_eq!(vm.ip, 3);
}

#[test]
fn cells_are_reached_by_address() {
    let mut vm = Interpreter::new(parse(""), Some(4));
    assert_eq!(vm.get_memory(3), Some(&0));
    assert_eq!(vm.get_memory(4), None);
    assert_eq!(vm.get_memory(u64::MAX), None);
    *vm.get_memory_mut(2).unwrap() = 42;
    assert_eq!(vm.memory, vec![0, 0, 42, 0]);
    assert!(vm.get_memory_mut(4).is_none());
    vm.mp = 2;
    assert_eq!(*vm.get_current_memory(), 42);
    *vm.get_current_memory_mut() = 43;
    assert_eq!(vm.get_memory(2), Some(&43));
}

#[test]
fn machine_halts_at_the_end_of_its_program() {
    let mut vm = machine("+-");
    assert!(!vm.halted());
    vm.step().unwrap();
    assert!(!vm.halted());
    vm.step().unwrap();
    assert!(vm.halted());
    assert!(machine("").halted());
}

#[test]
fn failed_move_leaves_the_machine_as_it_was() {
    let mut vm = Interpreter::new(parse(""), Some(2));
    vm.ip = u64::MAX;
    assert_eq!(
        vm.evaluate(Token::MoveLeft).unwrap_err(),
        Error::OutsideBounds(u64::MAX)
    );
    vm.mp = 1;
    assert_eq!(
        vm.evaluate(Token::MoveRight).unwrap_err(),
        Error::OutsideBounds(u64::MAX)
    );
    assert_eq!(vm.mp, 1);
    assert_eq!(vm.ip, u64::MAX);
    assert_eq!(vm.memory, vec![0, 0]);
}
