use tape_machine::compiler::constants::{DP, P1_REG, RET_REG, TMP_REG};
use tape_machine::compiler::Compiler;
use tape_machine::parser::parse;

fn compile(source: &str, symbol: &str) -> String {
    let compiler = Compiler::new(parse(source), String::from(symbol));
    assert!(compiler.can_compile());
    compiler.compile()
}

#[test]
fn registers_follow_the_calling_convention() {
    assert_eq!(DP, "r10");
    assert_eq!(RET_REG, "rax");
    assert_eq!(P1_REG, "rdi");
    assert_eq!(TMP_REG, "al");
}

#[test]
fn empty_program_is_prologue_and_epilogue() {
    assert_eq!(
        compile("", "test"),
        "global test\nsection .text\ntest:\nmov r10, rdi\nmov rax, r10\nret\n"
    );
}

#[test]
fn each_instruction_has_its_lines() {
    assert_eq!(
        compile("+[>-<]", "run"),
        "global run\n\
         section .text\n\
         run:\n\
         mov r10, rdi\n\
         mov al, [r10]\n\
         add al, 1\n\
         mov [r10], al\n\
         loop_1:\n\
         add r10, 0x1\n\
         mov al, [r10]\n\
         sub al, 1\n\
         mov [r10], al\n\
         sub r10, 0x1\n\
         mov al, [r10]\n\
         test al, al\n\
         jnz loop_1\n\
         mov rax, r10\n\
         ret\n"
    );
}

#[test]
fn labels_are_numbered_by_depth() {
    let text = compile("[[]][]", "f");
    let labels: Vec<&str> = text
        .lines()
        .filter(|line| line.starts_with("loop_") || line.starts_with("jnz"))
        .collect();
    assert_eq!(
        labels,
        vec![
            "loop_1:",
            "loop_2:",
            "jnz loop_2",
            "jnz loop_1",
            "loop_1:",
            "jnz loop_1"
        ]
    );
}

#[test]
fn label_numbers_are_written_in_base_ten() {
    let text = compile(&"[".repeat(12), "deep");
    assert!(text.contains("\nloop_9:\nloop_10:\nloop_11:\nloop_12:\nmov rax, r10\n"));
}

#[test]
fn input_and_output_cannot_be_compiled() {
    assert!(!Compiler::new(parse("+."), String::from("f")).can_compile());
    assert!(!Compiler::new(parse(",+"), String::from("f")).can_compile());
}

#[test]
fn stray_loop_end_cannot_be_compiled() {
    assert!(!Compiler::new(parse("]"), String::from("f")).can_compile());
    assert!(!Compiler::new(parse("[]]["), String::from("f")).can_compile());
    assert!(Compiler::new(parse("[[]"), String::from("f")).can_compile());
}

#[test]
fn label_counter_has_sixteen_bits() {
    assert!(Compiler::new(parse(&"[".repeat(65535)), String::from("f")).can_compile());
    assert!(!Compiler::new(parse(&"[".repeat(65536)), String::from("f")).can_compile());
}

#[test]
fn nested_loops_have_their_labels_and_branches() {
    assert_eq!(
        compile("[[]]", "f"),
        "global f\nsection .text\nf:\nmov r10, rdi\nloop_1:\nloop_2:\n\
         mov al, [r10]\ntest al, al\njnz loop_2\n\
         mov al, [r10]\ntest al, al\njnz loop_1\nmov rax, r10\nret\n"
    );
}
