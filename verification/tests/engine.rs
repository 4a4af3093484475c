use tape_machine::error;
use tape_machine::interpreter;
use tape_machine::parser;

#[test]
fn test_move_left() {
    let code = parser::parse("<");
    let mut vm = interpreter::Interpreter::new(code, None);
    vm.mp = 1;
    vm.step().unwrap();
    assert_eq!(vm.mp, 0);
}

#[test]
fn test_move_out_of_bounds_left() {
    let code = parser::parse("<");
    let mut vm = interpreter::Interpreter::new(code, None);
    assert_eq!(
        vm.run(|_| Ok(())).unwrap_err(),
        error::Error::OutsideBounds(0)
    );
}

#[test]
fn test_move_right() {
    let code = parser::parse(">");
    let mut vm = interpreter::Interpreter::new(code, None);
    vm.step().unwrap();
    assert_eq!(vm.mp, 1);
}

#[test]
fn test_move_out_of_bounds_right() {
    let code = parser::parse(">");
    let mut vm = interpreter::Interpreter::new(code, Some(1));
    assert_eq!(
        vm.run(|_| Ok(())).unwrap_err(),
        error::Error::OutsideBounds(0)
    );
}

#[test]
fn test_add_overflow() {
    let code = parser::parse("+++++++++++++++++++++++++++++++++++++++++++++++++++++++++++++++++++++++++++++++++++++++++++++++++++++++++++++++++++++++++++++++++++++++++++++++++++++++++++++++++++++++++++++++++++++++++++++++++++++++++++++++++++++++++++++++++++++++++++++++++++++++++++++++++");
    let mut vm = interpreter::Interpreter::new(code, None);
    vm.run(|_| Ok(())).unwrap();
    assert_eq!(*vm.get_memory(0).unwrap(), 1_u8);
}

#[test]
fn test_sub_overflow() {
    let code = parser::parse("-");
    let mut vm = interpreter::Interpreter::new(code, None);
    vm.run(|_| Ok(())).unwrap();
    assert_eq!(*vm.get_memory(0).unwrap(), 255_u8);
}

#[test]
fn test_loop() {
    let code = parser::parse("+++++[-]+");
    let mut vm = interpreter::Interpreter::new(code, None);
    vm.run(|_| Ok(())).unwrap();
    assert_eq!(*vm.get_memory(0).unwrap(), 1_u8);
}

#[test]
fn test_loop_no_start() {
    let code = parser::parse("+++++-]");
    let mut vm = interpreter::Interpreter::new(code, None);
    assert_eq!(
        vm.run(|_| Ok(())).unwrap_err(),
        error::Error::ExpectedLoopStart(6)
    );
}
