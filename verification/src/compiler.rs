use vstd::prelude::*;
use vstd::string::*;

use crate::listing::{
    body_lines, compilable, depth, epilogue, lemma_render_concat, lines_of, listing, prologue,
    render, Line,
};
use crate::parser::Token;
use crate::text::decimal_string;

pub mod constants;

use constants::{DP, P1_REG, RET_REG, TMP_REG};

verus! {

/// Turns an instruction stream into the assembly text of one routine.
#[derive(Debug)]
pub struct Compiler {
    code: Vec<Token>,
    symbol_name: String,
}

fn emit_prologue(text: &mut String, symbol_name: &str)
    ensures
        final(text)@ == old(text)@ + render(prologue(), symbol_name@),
{
    text.append("global ");
    text.append(symbol_name);
    text.append("\nsection .text\n");
    text.append(symbol_name);
    text.append(":\nmov ");
    text.append(DP);
    text.append(", ");
    text.append(P1_REG);
    text.append("\n");
    proof {
        reveal_strlit("global ");
        reveal_strlit("\nsection .text\n");
        reveal_strlit(":\nmov ");
        reveal_strlit("r10");
        reveal_strlit(", ");
        reveal_strlit("rdi");
        reveal_strlit("\n");
        reveal_strlit("section .text");
        reveal_strlit(":");
        reveal_strlit("mov r10, rdi");
        reveal_with_fuel(render, 5);
        assert(final(text)@ =~= old(text)@ + render(prologue(), symbol_name@));
    }
}

fn emit_epilogue(text: &mut String, Ghost(symbol): Ghost<Seq<char>>)
    ensures
        final(text)@ == old(text)@ + render(epilogue(), symbol),
{
    text.append("mov ");
    text.append(RET_REG);
    text.append(", ");
    text.append(DP);
    text.append("\nret\n");
    proof {
        reveal_strlit("mov ");
        reveal_strlit("rax");
        reveal_strlit(", ");
        reveal_strlit("r10");
        reveal_strlit("\nret\n");
        reveal_strlit("mov rax, r10");
        reveal_strlit("ret");
        reveal_strlit("\n");
        reveal_with_fuel(render, 3);
        assert(final(text)@ =~= old(text)@ + render(epilogue(), symbol));
    }
}

fn emit_move(text: &mut String, right: bool, Ghost(symbol): Ghost<Seq<char>>)
    ensures
        final(text)@ == old(text)@ + render(
            seq![if right { Line::Right } else { Line::Left }],
            symbol,
        ),
{
    if right {
        text.append("add ");
    } else {
        text.append("sub ");
    }
    text.append(DP);
    text.append(", 0x1\n");
    proof {
        reveal_strlit("add ");
        reveal_strlit("sub ");
        reveal_strlit("r10");
        reveal_strlit(", 0x1\n");
        reveal_strlit("add r10, 0x1");
        reveal_strlit("sub r10, 0x1");
        reveal_strlit("\n");
        reveal_with_fuel(render, 2);
        assert(final(text)@ =~= old(text)@ + render(
            seq![if right { Line::Right } else { Line::Left }],
            symbol,
        ));
    }
}

fn emit_change(text: &mut String, up: bool, Ghost(symbol): Ghost<Seq<char>>)
    ensures
        final(text)@ == old(text)@ + render(
            seq![Line::Load, if up { Line::Add } else { Line::Sub }, Line::Store],
            symbol,
        ),
{
    text.append("mov ");
    text.append(TMP_REG);
    text.append(", [");
    text.append(DP);
    if up {
        text.append("]\nadd ");
    } else {
        text.append("]\nsub ");
    }
    text.append(TMP_REG);
    text.append(", 1\nmov [");
    text.append(DP);
    text.append("], ");
    text.append(TMP_REG);
    text.append("\n");
    proof {
        reveal_strlit("mov ");
        reveal_strlit("al");
        reveal_strlit(", [");
        reveal_strlit("r10");
        reveal_strlit("]\nadd ");
        reveal_strlit("]\nsub ");
        reveal_strlit(", 1\nmov [");
        reveal_strlit("], ");
        reveal_strlit("\n");
        reveal_strlit("mov al, [r10]");
        reveal_strlit("add al, 1");
        reveal_strlit("sub al, 1");
        reveal_strlit("mov [r10], al");
        reveal_with_fuel(render, 4);
        assert(final(text)@ =~= old(text)@ + render(
            seq![Line::Load, if up { Line::Add } else { Line::Sub }, Line::Store],
            symbol,
        ));
    }
}

fn emit_label(text: &mut String, number: u16, Ghost(symbol): Ghost<Seq<char>>)
    ensures
        final(text)@ == old(text)@ + render(seq![Line::Label(number as nat)], symbol),
{
    text.append("loop_");
    text.append(decimal_string(number as u64).as_str());
    text.append(":\n");
    proof {
        reveal_strlit(":\n");
        reveal_strlit(":");
        reveal_strlit("\n");
        reveal_with_fuel(render, 2);
        assert(final(text)@ =~= old(text)@ + render(seq![Line::Label(number as nat)], symbol));
    }
}

fn emit_branch(text: &mut String, number: u16, Ghost(symbol): Ghost<Seq<char>>)
    ensures
        final(text)@ == old(text)@ + render(
            seq![Line::Load, Line::Test, Line::Branch(number as nat)],
            symbol,
        ),
{
    text.append("mov ");
    text.append(TMP_REG);
    text.append(", [");
    text.append(DP);
    text.append("]\ntest ");
    text.append(TMP_REG);
    text.append(", ");
    text.append(TMP_REG);
    text.append("\njnz loop_");
    text.append(decimal_string(number as u64).as_str());
    text.append("\n");
    proof {
        reveal_strlit("mov ");
        reveal_strlit("al");
        reveal_strlit(", [");
        reveal_strlit("r10");
        reveal_strlit("]\ntest ");
        reveal_strlit(", ");
        reveal_strlit("\njnz loop_");
        reveal_strlit("\n");
        reveal_strlit("mov al, [r10]");
        reveal_strlit("test al, al");
        reveal_strlit("jnz loop_");
        reveal_with_fuel(render, 4);
        assert(final(text)@ =~= old(text)@ + render(
            seq![Line::Load, Line::Test, Line::Branch(number as nat)],
            symbol,
        ));
    }
}

impl Compiler {
    /// The instruction stream that this compiler holds.
    pub closed spec fn program(&self) -> Seq<Token> {
        self.code@
    }

    /// The name under which the routine is exported.
    pub closed spec fn symbol(&self) -> Seq<char> {
        self.symbol_name@
    }

    /// A compiler for `code`, which exports its routine as `symbol_name`.
    pub fn new(code: Vec<Token>, symbol_name: String) -> (compiler: Self)
        ensures
            compiler.program() == code@,
            compiler.symbol() == symbol_name@,
    {
        Self { code, symbol_name }
    }

    /// Says whether `compile` can be called: whether the instruction stream reads
    /// and writes no byte and keeps the number of open loops within the label
    /// counter.
    pub fn can_compile(&self) -> (possible: bool)
        ensures
            possible == compilable(self.program()),
    {
        let mut open: u16 = 0;
        let mut index: usize = 0;
        assert(self.code@.take(0) =~= Seq::<Token>::empty());
        while index < self.code.len()
            invariant
                index <= self.code.len(),
                open == depth(self.code@.take(index as int)),
                forall|i: int|
                    0 <= i < index ==> #[trigger] self.code@[i] != Token::GetInput && self.code@[i]
                        != Token::Print,
                forall|count: int|
                    0 <= count <= index ==> 0 <= #[trigger] depth(self.code@.take(count))
                        <= u16::MAX,
            decreases self.code.len() - index,
        {
            let token = self.code[index];
            proof {
                let next = self.code@.take(index + 1);
                assert(next.drop_last() =~= self.code@.take(index as int));
                assert(next.last() == token);
            }
            match token {
                Token::GetInput | Token::Print => {
                    return false;
                },
                Token::Loop => {
                    if open == u16::MAX {
                        assert(depth(self.code@.take(index + 1)) > u16::MAX);
                        return false;
                    }
                    open += 1;
                },
                Token::JumpBack => {
                    if open == 0 {
                        assert(depth(self.code@.take(index + 1)) < 0);
                        return false;
                    }
                    open -= 1;
                },
                _ => {},
            }
            index += 1;
        }
        true
    }

    /// Writes the routine for the instruction stream: the lines that open it, the
    /// lines of each instruction in turn, and the lines that close it.
    pub fn compile(&self) -> (text: String)
        requires
            compilable(self.program()),
        ensures
            text@ == listing(self.program(), self.symbol()),
    {
        let ghost symbol = self.symbol_name@;
        let mut loop_counter: u16 = 0;
        let mut text = String::new();
        emit_prologue(&mut text, self.symbol_name.as_str());

        let mut index: usize = 0;
        proof {
            assert(self.code@.take(0) =~= Seq::<Token>::empty());
            assert(prologue() + body_lines(Seq::<Token>::empty()) =~= prologue());
        }
        while index < self.code.len()
            invariant
                index <= self.code.len(),
                symbol == self.symbol_name@,
                compilable(self.code@),
                loop_counter == depth(self.code@.take(index as int)),
                text@ == render(prologue() + body_lines(self.code@.take(index as int)), symbol),
            decreases self.code.len() - index,
        {
            let token = self.code[index];
            let ghost before = self.code@.take(index as int);
            let ghost lines = lines_of(token, loop_counter as int);
            proof {
                let next = self.code@.take(index + 1);
                assert(next.drop_last() =~= before);
                assert(next.last() == token);
                assert(0 <= depth(next) <= u16::MAX);
                assert(prologue() + body_lines(next) =~= (prologue() + body_lines(before)) + lines);
                lemma_render_concat(prologue() + body_lines(before), lines, symbol);
            }
            match token {
                Token::MoveLeft => emit_move(&mut text, false, Ghost(symbol)),
                Token::MoveRight => emit_move(&mut text, true, Ghost(symbol)),
                Token::IncreaseValue => emit_change(&mut text, true, Ghost(symbol)),
                Token::DecreaseValue => emit_change(&mut text, false, Ghost(symbol)),
                Token::Loop => {
                    loop_counter += 1;
                    emit_label(&mut text, loop_counter, Ghost(symbol));
                },
                Token::JumpBack => {
                    loop_counter -= 1;
                    emit_branch(&mut text, loop_counter + 1, Ghost(symbol));
                },
                Token::GetInput | Token::Print => unreached(),
            }
            index += 1;
        }
        emit_epilogue(&mut text, Ghost(symbol));
        proof {
            assert(self.code@.take(index as int) =~= self.code@);
            lemma_render_concat(prologue() + body_lines(self.code@), epilogue(), symbol);
        }
        text
    }
}

} // verus!
