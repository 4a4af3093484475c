use vstd::prelude::*;

use crate::parser::Token;
use crate::text::decimal;

verus! {

/// One line of the assembly text of a routine.
pub enum Line {
    /// `global` and the routine's symbol: the symbol is visible to the linker.
    Global,
    /// The routine stands in the text section.
    Section,
    /// The routine's symbol and a colon: the routine starts here.
    Entry,
    /// The cursor register takes the routine's argument, the start of the memory.
    Base,
    /// The cursor moves one cell to the left.
    Left,
    /// The cursor moves one cell to the right.
    Right,
    /// The byte register takes the cell under the cursor.
    Load,
    /// The byte register grows by one.
    Add,
    /// The byte register shrinks by one.
    Sub,
    /// The cell under the cursor takes the byte register.
    Store,
    /// The label with this number stands here.
    Label(nat),
    /// The zero flag says whether the byte register is zero.
    Test,
    /// Goes on at the label with this number unless the zero flag is set.
    Branch(nat),
    /// The result register takes the cursor.
    Result,
    /// The routine returns.
    Return,
}

/// A line as it is written, without its line end.
pub open spec fn line_text(line: Line, symbol: Seq<char>) -> Seq<char> {
    match line {
        Line::Global => "global "@ + symbol,
        Line::Section => "section .text"@,
        Line::Entry => symbol + ":"@,
        Line::Base => "mov r10, rdi"@,
        Line::Left => "sub r10, 0x1"@,
        Line::Right => "add r10, 0x1"@,
        Line::Load => "mov al, [r10]"@,
        Line::Add => "add al, 1"@,
        Line::Sub => "sub al, 1"@,
        Line::Store => "mov [r10], al"@,
        Line::Label(number) => "loop_"@ + decimal(number) + ":"@,
        Line::Test => "test al, al"@,
        Line::Branch(number) => "jnz loop_"@ + decimal(number),
        Line::Result => "mov rax, r10"@,
        Line::Return => "ret"@,
    }
}

/// The text of some lines: each line as it is written, followed by a line feed.
pub open spec fn render(lines: Seq<Line>, symbol: Seq<char>) -> Seq<char>
    decreases lines.len(),
{
    if lines.len() == 0 {
        Seq::empty()
    } else {
        render(lines.drop_last(), symbol) + line_text(lines.last(), symbol) + "\n"@
    }
}

/// The number of loops that are open after the instructions of `code`: those it
/// enters less those it leaves.
pub open spec fn depth(code: Seq<Token>) -> int
    decreases code.len(),
{
    if code.len() == 0 {
        0
    } else {
        depth(code.drop_last()) + match code.last() {
            Token::Loop => 1int,
            Token::JumpBack => -1int,
            _ => 0int,
        }
    }
}

/// The lines of one instruction that stands where `open` loops are open. A loop
/// that is entered gets the next number as its label, and a loop that is left
/// branches back to the label of the innermost open loop.
pub open spec fn lines_of(token: Token, open: int) -> Seq<Line> {
    match token {
        Token::MoveLeft => seq![Line::Left],
        Token::MoveRight => seq![Line::Right],
        Token::IncreaseValue => seq![Line::Load, Line::Add, Line::Store],
        Token::DecreaseValue => seq![Line::Load, Line::Sub, Line::Store],
        Token::Loop => seq![Line::Label((open + 1) as nat)],
        Token::JumpBack => seq![Line::Load, Line::Test, Line::Branch(open as nat)],
        Token::GetInput => Seq::empty(),
        Token::Print => Seq::empty(),
    }
}

/// The lines of the instructions of `code`, in their order.
pub open spec fn body_lines(code: Seq<Token>) -> Seq<Line>
    decreases code.len(),
{
    if code.len() == 0 {
        Seq::empty()
    } else {
        body_lines(code.drop_last()) + lines_of(code.last(), depth(code.drop_last()))
    }
}

/// The lines that open a routine.
pub open spec fn prologue() -> Seq<Line> {
    seq![Line::Global, Line::Section, Line::Entry, Line::Base]
}

/// The lines that close a routine.
pub open spec fn epilogue() -> Seq<Line> {
    seq![Line::Result, Line::Return]
}

/// The lines of the routine for `code`.
pub open spec fn routine(code: Seq<Token>) -> Seq<Line> {
    prologue() + body_lines(code) + epilogue()
}

/// The assembly text of the routine for `code` under the name `symbol`.
pub open spec fn listing(code: Seq<Token>, symbol: Seq<char>) -> Seq<char> {
    render(routine(code), symbol)
}

/// The instruction streams that a routine can be written for: they read and
/// write no byte, and at every instruction the number of open loops is at least
/// zero and fits the 16 bits of the label counter.
pub open spec fn compilable(code: Seq<Token>) -> bool {
    &&& forall|i: int|
        0 <= i < code.len() ==> #[trigger] code[i] != Token::GetInput && code[i] != Token::Print
    &&& forall|count: int|
        0 <= count <= code.len() ==> 0 <= #[trigger] depth(code.take(count)) <= u16::MAX
}

/// The text of lines that follow each other is the text of the first followed by
/// the text of the second.
pub proof fn lemma_render_concat(first: Seq<Line>, second: Seq<Line>, symbol: Seq<char>)
    ensures
        render(first + second, symbol) == render(first, symbol) + render(second, symbol),
    decreases second.len(),
{
    if second.len() == 0 {
        assert(first + second =~= first);
        assert(render(first, symbol) + render(second, symbol) =~= render(first, symbol));
    } else {
        lemma_render_concat(first, second.drop_last(), symbol);
        assert((first + second).drop_last() =~= first + second.drop_last());
        assert((first + second).last() == second.last());
        assert(render(first + second, symbol) =~= render(first, symbol) + render(second, symbol));
    }
}

} // verus!
