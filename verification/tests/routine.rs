use tape_machine::compiler::Compiler;
use tape_machine::interpreter::Interpreter;
use tape_machine::parser::parse;

/// Executes the lines of a routine on `memory`, with the cursor starting at
/// the cell `argument`, and gives what the routine returns.
fn call(text: &str, memory: &mut Vec<u8>, argument: usize) -> usize {
    let lines: Vec<&str> = text.lines().collect();
    let mut line = 0;
    let mut cursor = 0;
    let mut byte = 0_u8;
    let mut zero = false;
    let mut result = 0;
    for _ in 0..1_000_000 {
        let here = lines[line];
        line += 1;
        match here {
            "mov r10, rdi" => cursor = argument,
            "sub r10, 0x1" => cursor -= 1,
            "add r10, 0x1" => cursor += 1,
            "mov al, [r10]" => byte = memory[cursor],
            "add al, 1" => byte = byte.wrapping_add(1),
            "sub al, 1" => byte = byte.wrapping_sub(1),
            "mov [r10], al" => memory[cursor] = byte,
            "test al, al" => zero = byte == 0,
            "mov rax, r10" => result = cursor,
            "ret" => return result,
            _ if here.starts_with("jnz ") => {
                if !zero {
                    let label = format!("{}:", &here[4..]);
                    let places: Vec<usize> =
                        (0..lines.len()).filter(|at| lines[*at] == label).collect();
                    assert_eq!(places.len(), 1);
                    line = places[0];
                }
            }
            _ => assert!(
                here.starts_with("global ") || here.starts_with("section ") || here.ends_with(':')
            ),
        }
    }
    panic!("the routine did not return");
}

fn both(source: &str) -> ((u64, Vec<u8>), (usize, Vec<u8>)) {
    let mut vm = Interpreter::new(parse(source), Some(8));
    vm.run(|_| Ok(())).unwrap();
    let compiler = Compiler::new(parse(source), String::from("f"));
    assert!(compiler.can_compile());
    let mut memory = vec![0; 8];
    let result = call(&compiler.compile(), &mut memory, 0);
    ((vm.mp, vm.memory), (result, memory))
}

#[test]
fn routine_returns_the_final_data_pointer() {
    let ((mp, tape), (result, memory)) = both("++[>+++[>+<-]<-]>>");
    assert_eq!(mp, 2);
    assert_eq!(result, 2);
    assert_eq!(tape, vec![0, 0, 6, 0, 0, 0, 0, 0]);
    assert_eq!(memory, tape);
}

#[test]
fn routine_without_loops_returns_the_final_data_pointer() {
    let ((mp, tape), (result, memory)) = both(">>+>-<<");
    assert_eq!(mp, 1);
    assert_eq!(result, 1);
    assert_eq!(tape, memory);
}

#[test]
fn routine_starts_at_its_argument() {
    let source = "+[>+<-]>";
    let mut vm = Interpreter::new(parse(source), Some(8));
    vm.mp = 3;
    vm.run(|_| Ok(())).unwrap();
    let mut memory = vec![0; 8];
    let text = Compiler::new(parse(source), String::from("f")).compile();
    assert_eq!(call(&text, &mut memory, 3), 4);
    assert_eq!(vm.mp, 4);
    assert_eq!(vm.memory, memory);
}

#[test]
fn loop_met_on_zero_parts_machine_and_routine() {
    let ((mp, _), (result, _)) = both(">>+<<+[>[+]]");
    assert_eq!(mp, 2);
    assert_eq!(result, 1);
}

#[test]
fn routine_without_moves_returns_its_argument() {
    let ((mp, tape), (result, memory)) = both("+[-[-]]");
    assert_eq!(mp, 0);
    assert_eq!(result, 0);
    assert_eq!(tape, memory);
}
