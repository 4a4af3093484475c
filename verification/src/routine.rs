use vstd::prelude::*;

use crate::listing::{body_lines, compilable, depth, lines_of, routine, Line};
use crate::machine::{
    decremented, has_no_moves, incremented, lemma_data_pointer_rests,
    lemma_execute_keeps_well_formed, lemma_runs_every_part, Machine,
};
use crate::parser::types::Cell;
use crate::parser::Token;

verus! {

/// The processor as far as a routine uses it: the line it executes next, the
/// argument it was called with, the cursor register, the byte register, the zero
/// flag, the memory, the result register, and whether the routine has returned.
/// The argument, the cursor and the result are addresses, counted in cells of the
/// memory.
pub struct Processor {
    pub line: nat,
    pub argument: int,
    pub cursor: int,
    pub byte: Cell,
    pub zero: bool,
    pub memory: Seq<Cell>,
    pub result: int,
    pub returned: bool,
}

/// Every label of the lines stands on one line only.
pub open spec fn labels_stand_once(lines: Seq<Line>) -> bool {
    forall|first: int, second: int|
        #![trigger lines[first], lines[second]]
        0 <= first < lines.len() && 0 <= second < lines.len() && lines[first] is Label
            && lines[first] == lines[second] ==> first == second
}

/// The line on which the label with this number stands.
pub open spec fn label_line(lines: Seq<Line>, number: nat) -> nat {
    choose|line: nat| line < lines.len() && lines[line as int] == Line::Label(number)
}

impl Processor {
    /// The processor at the call of a routine: before its first line, with the
    /// address `argument` as its argument.
    pub open spec fn entry(memory: Seq<Cell>, argument: int) -> Processor {
        Processor {
            line: 0,
            argument,
            cursor: 0,
            byte: 0,
            zero: false,
            memory,
            result: 0,
            returned: false,
        }
    }

    /// This processor one line further.
    pub open spec fn next(self) -> Processor {
        Processor { line: self.line + 1, ..self }
    }

    /// What the next line does to the processor. After the return, and behind the
    /// last line, nothing happens any more.
    pub open spec fn perform(self, lines: Seq<Line>) -> Processor {
        if self.returned || self.line >= lines.len() {
            self
        } else {
            match lines[self.line as int] {
                Line::Global => self.next(),
                Line::Section => self.next(),
                Line::Entry => self.next(),
                Line::Base => Processor { cursor: self.argument, ..self }.next(),
                Line::Left => Processor { cursor: self.cursor - 1, ..self }.next(),
                Line::Right => Processor { cursor: self.cursor + 1, ..self }.next(),
                Line::Load => Processor { byte: self.memory[self.cursor], ..self }.next(),
                Line::Add => Processor { byte: incremented(self.byte), ..self }.next(),
                Line::Sub => Processor { byte: decremented(self.byte), ..self }.next(),
                Line::Store => Processor {
                    memory: self.memory.update(self.cursor, self.byte),
                    ..self
                }.next(),
                Line::Label(_) => self.next(),
                Line::Test => Processor { zero: self.byte == 0, ..self }.next(),
                Line::Branch(number) => if self.zero {
                    self.next()
                } else {
                    Processor { line: label_line(lines, number), ..self }
                },
                Line::Result => Processor { result: self.cursor, ..self }.next(),
                Line::Return => Processor { returned: true, ..self },
            }
        }
    }

    /// The processor after `count` lines.
    pub open spec fn proceed(self, lines: Seq<Line>, count: nat) -> Processor
        decreases count,
    {
        if count == 0 {
            self
        } else {
            self.proceed(lines, (count - 1) as nat).perform(lines)
        }
    }
}

/// The routine of `lines`, called with `memory` and with the address `argument`,
/// returns, and it returns the address `result` and leaves the memory as `left`.
pub open spec fn returns_with(
    lines: Seq<Line>,
    memory: Seq<Cell>,
    argument: int,
    result: int,
    left: Seq<Cell>,
) -> bool {
    exists|count: nat|
        {
            let end = #[trigger] Processor::entry(memory, argument).proceed(lines, count);
            end.returned && end.result == result && end.memory == left
        }
}

/// Before each of its first `count` instructions, the machine does not stand on a
/// loop start with a zero in the cell under the data pointer.
pub open spec fn enters_loops_on_nonzero(start: Machine, count: nat) -> bool {
    forall|earlier: nat|
        earlier < count ==> {
            let before = #[trigger] start.after(earlier);
            before.code[before.ip as int] == Token::Loop ==> before.cell() != 0
        }
}

/// The return address on top of the machine's stack stands behind a loop start
/// whose label has the number that a loop end at the instruction pointer
/// branches to.
pub open spec fn returns_into_own_loop(state: Machine) -> bool {
    let top = state.loop_stack.last();
    &&& state.loop_stack.len() > 0
    &&& 1 <= top <= state.code.len()
    &&& state.code[top - 1] == Token::Loop
    &&& depth(state.code.take(top - 1)) + 1 == depth(state.code.take(state.ip as int))
}

/// Each time that the machine, among its first `count` instructions, goes back
/// from a loop end, it goes back into the loop that this loop end closes.
pub open spec fn jumps_back_into_own_loops(start: Machine, count: nat) -> bool {
    forall|earlier: nat|
        earlier < count ==> {
            let before = #[trigger] start.after(earlier);
            before.code[before.ip as int] == Token::JumpBack && before.cell() != 0
                ==> returns_into_own_loop(before)
        }
}

/// The number of lines that the processor executes for the machine's next
/// instruction.
spec fn cost(state: Machine) -> nat {
    match state.code[state.ip as int] {
        Token::MoveLeft => 1,
        Token::MoveRight => 1,
        Token::IncreaseValue => 3,
        Token::DecreaseValue => 3,
        Token::Loop => 1,
        Token::JumpBack => if state.cell() != 0 {
            4
        } else {
            3
        },
        Token::GetInput => 0,
        Token::Print => 0,
    }
}

/// The number of lines that the processor executes for the machine's first
/// `count` instructions.
spec fn effort(start: Machine, count: nat) -> nat
    decreases count,
{
    if count == 0 {
        0
    } else {
        effort(start, (count - 1) as nat) + cost(start.after((count - 1) as nat))
    }
}

/// The line on which the lines of the instruction at `address` begin.
spec fn line_of(code: Seq<Token>, address: int) -> nat {
    4 + body_lines(code.take(address)).len()
}

/// The return addresses of the machine are those of the loops that are open at
/// its instruction pointer, the outermost first.
spec fn stack_matches(code: Seq<Token>, state: Machine) -> bool {
    &&& state.loop_stack.len() == depth(code.take(state.ip as int))
    &&& forall|level: int|
        0 <= level < state.loop_stack.len() ==> {
            let opened = #[trigger] state.loop_stack[level] - 1;
            &&& 0 <= opened < code.len()
            &&& code[opened] == Token::Loop
            &&& depth(code.take(opened)) == level
        }
}

/// The processor stands where the machine stands.
spec fn mirrors(code: Seq<Token>, state: Machine, processor: Processor) -> bool {
    &&& state.code == code
    &&& state.ip <= code.len()
    &&& state.well_formed()
    &&& processor.line == line_of(code, state.ip as int)
    &&& processor.cursor == state.mp
    &&& processor.memory == state.memory
    &&& !processor.returned
}

proof fn lemma_proceed_further(start: Processor, lines: Seq<Line>, first: nat, second: nat)
    ensures
        start.proceed(lines, first + second) == start.proceed(lines, first).proceed(lines, second),
    decreases second,
{
    if second > 0 {
        lemma_proceed_further(start, lines, first, (second - 1) as nat);
    }
}

proof fn lemma_body_grows(code: Seq<Token>, address: int)
    requires
        0 <= address < code.len(),
    ensures
        code.take(address + 1).drop_last() == code.take(address),
        code.take(address + 1).last() == code[address],
        body_lines(code.take(address + 1)) == body_lines(code.take(address)) + lines_of(
            code[address],
            depth(code.take(address)),
        ),
        depth(code.take(address + 1)) == depth(code.take(address)) + match code[address] {
            Token::Loop => 1int,
            Token::JumpBack => -1int,
            _ => 0int,
        },
{
    assert(code.take(address + 1).drop_last() =~= code.take(address));
}

proof fn lemma_body_begins(code: Seq<Token>, address: int)
    requires
        0 <= address <= code.len(),
    ensures
        body_lines(code.take(address)).len() <= body_lines(code).len(),
        forall|line: int|
            0 <= line < body_lines(code.take(address)).len() ==> body_lines(code)[line]
                == #[trigger] body_lines(code.take(address))[line],
    decreases code.len(),
{
    if address == code.len() {
        assert(code.take(address) =~= code);
    } else {
        lemma_body_begins(code.drop_last(), address);
        assert(code.drop_last().take(address) =~= code.take(address));
    }
}

/// Where the lines of an instruction stand in the routine, and where its last
/// lines stand.
proof fn lemma_lines_of_address(code: Seq<Token>, address: int)
    requires
        0 <= address < code.len(),
    ensures
        line_of(code, address + 1) == line_of(code, address) + lines_of(
            code[address],
            depth(code.take(address)),
        ).len(),
        line_of(code, address + 1) <= line_of(code, code.len() as int),
        forall|part: int|
            0 <= part < lines_of(code[address], depth(code.take(address))).len() ==> routine(
                code,
            )[line_of(code, address) + part] == #[trigger] lines_of(
                code[address],
                depth(code.take(address)),
            )[part],
{
    lemma_body_grows(code, address);
    lemma_body_begins(code, address + 1);
    assert(code.take(code.len() as int) =~= code);
    let here = lines_of(code[address], depth(code.take(address)));
    let before = body_lines(code.take(address));
    assert forall|part: int| 0 <= part < here.len() implies routine(code)[line_of(code, address)
        + part] == #[trigger] here[part] by {
        assert(body_lines(code.take(address + 1))[before.len() + part] == here[part]);
        assert(routine(code)[4 + (before.len() + part)] == body_lines(code)[before.len() + part]);
    }
}

proof fn lemma_last_lines(code: Seq<Token>)
    ensures
        routine(code).len() == line_of(code, code.len() as int) + 2,
        routine(code)[line_of(code, code.len() as int) as int] == Line::Result,
        routine(code)[line_of(code, code.len() as int) as int + 1] == Line::Return,
{
    assert(code.take(code.len() as int) =~= code);
}

proof fn lemma_label_found(code: Seq<Token>, opened: int)
    requires
        0 <= opened < code.len(),
        code[opened] == Token::Loop,
        depth(code.take(opened)) >= 0,
        labels_stand_once(routine(code)),
    ensures
        label_line(routine(code), (depth(code.take(opened)) + 1) as nat) == line_of(code, opened),
        line_of(code, opened) < routine(code).len(),
        routine(code)[line_of(code, opened) as int] is Label,
        line_of(code, opened + 1) == line_of(code, opened) + 1,
{
    lemma_lines_of_address(code, opened);
    lemma_body_grows(code, opened);
    lemma_last_lines(code);
    let lines = routine(code);
    let number = (depth(code.take(opened)) + 1) as nat;
    let here = line_of(code, opened);
    assert(lines_of(code[opened], depth(code.take(opened)))[0] == Line::Label(number));
    assert(lines[here as int] == Line::Label(number));
    let found = label_line(lines, number);
    assert(found < lines.len() && lines[found as int] == Line::Label(number));
    assert(lines[here as int] == lines[found as int]);
}

/// The lines of the machine's next instruction take the processor to where the
/// instruction takes the machine.
proof fn lemma_step_mirrored(code: Seq<Token>, state: Machine, processor: Processor)
    requires
        compilable(code),
        labels_stand_once(routine(code)),
        mirrors(code, state, processor),
        !state.halted(),
        state.step() is Ok,
        code[state.ip as int] == Token::JumpBack && state.cell() != 0 ==> returns_into_own_loop(
            state,
        ),
    ensures
        mirrors(code, state.step()->Ok_0, processor.proceed(routine(code), cost(state))),
{
    let at = state.ip as int;
    let token = code[at];
    let open = depth(code.take(at));
    let lines = routine(code);
    let here = processor.line as int;
    let after = state.step()->Ok_0;
    lemma_lines_of_address(code, at);
    lemma_body_grows(code, at);
    lemma_last_lines(code);
    lemma_execute_keeps_well_formed(state, token);
    assert(0 <= depth(code.take(at)) <= u16::MAX);
    assert(0 <= depth(code.take(at + 1)) <= u16::MAX);
    assert(code[at] != Token::GetInput && code[at] != Token::Print);
    reveal_with_fuel(Processor::proceed, 5);
    let first = processor.perform(lines);
    let second = first.perform(lines);
    let third = second.perform(lines);
    let fourth = third.perform(lines);
    assert(processor.proceed(lines, 1) == first);
    assert(processor.proceed(lines, 3) == third);
    assert(processor.proceed(lines, 4) == fourth);
    match token {
        Token::MoveLeft => {
            assert(lines[here] == lines_of(token, open)[0]);
        },
        Token::MoveRight => {
            assert(lines[here] == lines_of(token, open)[0]);
        },
        Token::IncreaseValue => {
            assert(lines[here] == lines_of(token, open)[0]);
            assert(lines[here + 1] == lines_of(token, open)[1]);
            assert(lines[here + 2] == lines_of(token, open)[2]);
        },
        Token::DecreaseValue => {
            assert(lines[here] == lines_of(token, open)[0]);
            assert(lines[here + 1] == lines_of(token, open)[1]);
            assert(lines[here + 2] == lines_of(token, open)[2]);
        },
        Token::Loop => {
            assert(lines[here] == lines_of(token, open)[0]);
        },
        Token::JumpBack => {
            assert(lines[here] == lines_of(token, open)[0]);
            assert(lines[here + 1] == lines_of(token, open)[1]);
            assert(lines[here + 2] == lines_of(token, open)[2]);
            assert(lines[here + 2] == Line::Branch(open as nat));
            if state.cell() != 0 {
                let opened = state.loop_stack.last() - 1;
                assert(depth(code.take(opened)) >= 0);
                lemma_label_found(code, opened);
                assert(third.line == line_of(code, opened));
                assert(fourth.line == line_of(code, opened + 1));
            }
        },
        Token::GetInput => {},
        Token::Print => {},
    }
}

/// After each number of instructions that the machine can execute, the
/// processor stands where the machine stands.
proof fn lemma_run_mirrored(start: Machine, count: nat)
    requires
        compilable(start.code),
        labels_stand_once(routine(start.code)),
        start.well_formed(),
        start.ip == 0,
        start.runs(count),
        jumps_back_into_own_loops(start, count),
    ensures
        mirrors(
            start.code,
            start.after(count),
            Processor::entry(start.memory, start.mp as int).proceed(
                routine(start.code),
                4 + effort(start, count),
            ),
        ),
    decreases count,
{
    let code = start.code;
    let lines = routine(code);
    let boot = Processor::entry(start.memory, start.mp as int);
    if count == 0 {
        reveal_with_fuel(Processor::proceed, 5);
        lemma_last_lines(code);
        assert(code.take(0) =~= Seq::<Token>::empty());
        assert(lines[0] == Line::Global);
        assert(lines[1] == Line::Section);
        assert(lines[2] == Line::Entry);
        assert(lines[3] == Line::Base);
        let first = boot.perform(lines);
        let second = first.perform(lines);
        let third = second.perform(lines);
        let fourth = third.perform(lines);
        assert(boot.proceed(lines, 4) == fourth);
    } else {
        let prior = (count - 1) as nat;
        lemma_run_mirrored(start, prior);
        let before = start.after(prior);
        let reached = boot.proceed(lines, 4 + effort(start, prior));
        assert(before.code[before.ip as int] == Token::JumpBack && before.cell() != 0
            ==> returns_into_own_loop(before));
        lemma_step_mirrored(code, before, reached);
        lemma_proceed_further(boot, lines, 4 + effort(start, prior), cost(before));
    }
}

/// The routine written for a program returns the data pointer with which the
/// machine ends that program, and leaves the memory as the machine leaves its
/// tape. So the routine's cursor and the machine's data pointer end at the same
/// distance from where they began.
///
/// This holds of a machine that starts at the first instruction and halts after
/// `count` instructions, for a routine that is called with the machine's tape as
/// its memory and with the address of the cell under the data pointer. It is
/// stated for programs in whose routine every label stands once, since a branch
/// to a label that stands twice has no meaning, and for runs in which the machine
/// goes back from a loop end into the loop that this loop end closes, as the
/// routine does. A machine that meets a loop start on a zero cell does not open
/// that loop, and may then go back from its end into the loop around it.
pub proof fn lemma_routine_returns_data_pointer(start: Machine, count: nat)
    requires
        compilable(start.code),
        labels_stand_once(routine(start.code)),
        start.well_formed(),
        start.ip == 0,
        start.runs(count),
        start.after(count).halted(),
        jumps_back_into_own_loops(start, count),
    ensures
        returns_with(
            routine(start.code),
            start.memory,
            start.mp as int,
            start.after(count).mp as int,
            start.after(count).memory,
        ),
{
    let code = start.code;
    let lines = routine(code);
    let boot = Processor::entry(start.memory, start.mp as int);
    let body = 4 + effort(start, count);
    lemma_run_mirrored(start, count);
    lemma_last_lines(code);
    lemma_proceed_further(boot, lines, body, 2);
    reveal_with_fuel(Processor::proceed, 3);
    let reached = boot.proceed(lines, body);
    let first = reached.perform(lines);
    let second = first.perform(lines);
    assert(reached.proceed(lines, 2) == second);
    let end = boot.proceed(lines, body + 2);
    assert(end.returned && end.result == start.after(count).mp && end.memory == start.after(
        count,
    ).memory);
}

proof fn lemma_stack_step(code: Seq<Token>, state: Machine)
    requires
        state.code == code,
        state.ip < code.len(),
        stack_matches(code, state),
        state.step() is Ok,
        code[state.ip as int] == Token::Loop ==> state.cell() != 0,
    ensures
        stack_matches(code, state.step()->Ok_0),
        state.step()->Ok_0.code == code,
        state.step()->Ok_0.ip <= code.len(),
{
    let at = state.ip as int;
    let after = state.step()->Ok_0;
    lemma_body_grows(code, at);
    match code[at] {
        Token::Loop => {
            assert(after.loop_stack == state.loop_stack.push(state.ip + 1));
            assert forall|level: int| 0 <= level < after.loop_stack.len() implies {
                let opened = #[trigger] after.loop_stack[level] - 1;
                &&& 0 <= opened < code.len()
                &&& code[opened] == Token::Loop
                &&& depth(code.take(opened)) == level
            } by {
                if level < state.loop_stack.len() {
                    assert(after.loop_stack[level] == state.loop_stack[level]);
                }
            }
        },
        Token::JumpBack => {
            if state.cell() != 0 {
                let opened = state.loop_stack[state.loop_stack.len() - 1] - 1;
                lemma_body_grows(code, opened);
                assert(code.take(after.ip as int) == code.take(opened + 1));
            } else {
                assert(after.loop_stack == state.loop_stack.drop_last());
                assert forall|level: int| 0 <= level < after.loop_stack.len() implies {
                    let opened = #[trigger] after.loop_stack[level] - 1;
                    &&& 0 <= opened < code.len()
                    &&& code[opened] == Token::Loop
                    &&& depth(code.take(opened)) == level
                } by {
                    assert(after.loop_stack[level] == state.loop_stack[level]);
                }
            }
        },
        _ => {},
    }
}

proof fn lemma_stack_kept(start: Machine, count: nat)
    requires
        start.ip == 0,
        start.loop_stack.len() == 0,
        start.runs(count),
        enters_loops_on_nonzero(start, count),
    ensures
        stack_matches(start.code, start.after(count)),
        start.after(count).code == start.code,
        start.after(count).ip <= start.code.len(),
    decreases count,
{
    if count == 0 {
        assert(start.code.take(0) =~= Seq::<Token>::empty());
    } else {
        let prior = (count - 1) as nat;
        lemma_stack_kept(start, prior);
        let before = start.after(prior);
        assert(before.code[before.ip as int] == Token::Loop ==> before.cell() != 0);
        lemma_stack_step(start.code, before);
    }
}

/// A machine that starts at the first instruction, in no loop, and meets no loop
/// start on a zero cell goes back from each loop end into the loop that this
/// loop end closes.
pub proof fn lemma_opened_loops_are_closed(start: Machine, count: nat)
    requires
        start.ip == 0,
        start.loop_stack.len() == 0,
        start.runs(count),
        enters_loops_on_nonzero(start, count),
    ensures
        jumps_back_into_own_loops(start, count),
{
    assert forall|earlier: nat| earlier < count implies {
        let before = #[trigger] start.after(earlier);
        before.code[before.ip as int] == Token::JumpBack && before.cell() != 0
            ==> returns_into_own_loop(before)
    } by {
        let before = start.after(earlier);
        lemma_runs_every_part(start, count, earlier);
        lemma_runs_every_part(start, count, earlier + 1);
        assert forall|sooner: nat| sooner < earlier implies {
            let state = #[trigger] start.after(sooner);
            state.code[state.ip as int] == Token::Loop ==> state.cell() != 0
        } by {
            assert(sooner < count);
        }
        lemma_stack_kept(start, earlier);
        assert(start.runs(earlier + 1));
        assert(!before.halted() && before.step() is Ok);
        if before.code[before.ip as int] == Token::JumpBack && before.cell() != 0 {
            let opened = before.loop_stack[before.loop_stack.len() - 1] - 1;
            assert(0 <= opened < before.code.len());
        }
    }
}

/// The lines `body` have a line with the label `number`.
spec fn has_label(body: Seq<Line>, number: nat) -> bool {
    exists|at: int| 0 <= at < body.len() && #[trigger] body[at] == Line::Label(number)
}

/// The line `at` of `body` leaves the cursor alone, and where it branches, the
/// label that it branches to stands in `body`.
spec fn moves_nothing(body: Seq<Line>, at: int) -> bool {
    match body[at] {
        Line::Load => true,
        Line::Add => true,
        Line::Sub => true,
        Line::Store => true,
        Line::Test => true,
        Line::Label(_) => true,
        Line::Branch(number) => has_label(body, number),
        _ => false,
    }
}

proof fn lemma_label_written(code: Seq<Token>, count: int, number: int)
    requires
        0 <= count <= code.len(),
        1 <= number <= depth(code.take(count)),
    ensures
        has_label(body_lines(code.take(count)), number as nat),
    decreases count,
{
    if count == 0 {
        assert(code.take(0) =~= Seq::<Token>::empty());
    } else {
        lemma_body_grows(code, count - 1);
        let before = body_lines(code.take(count - 1));
        let body = body_lines(code.take(count));
        if depth(code.take(count - 1)) >= number {
            lemma_label_written(code, count - 1, number);
            let at = choose|at: int|
                0 <= at < before.len() && #[trigger] before[at] == Line::Label(number as nat);
            assert(body[at] == Line::Label(number as nat));
        } else {
            assert(body[before.len() as int] == Line::Label(number as nat));
        }
    }
}

proof fn lemma_body_moves_nothing(code: Seq<Token>, count: int)
    requires
        compilable(code),
        has_no_moves(code),
        0 <= count <= code.len(),
    ensures
        forall|at: int|
            0 <= at < body_lines(code.take(count)).len() ==> #[trigger] moves_nothing(
                body_lines(code.take(count)),
                at,
            ),
    decreases count,
{
    if count == 0 {
        assert(code.take(0) =~= Seq::<Token>::empty());
    } else {
        lemma_body_moves_nothing(code, count - 1);
        lemma_body_grows(code, count - 1);
        let token = code[count - 1];
        let open = depth(code.take(count - 1));
        let before = body_lines(code.take(count - 1));
        let body = body_lines(code.take(count));
        assert(0 <= depth(code.take(count)) <= u16::MAX);
        assert(code[count - 1] != Token::GetInput && code[count - 1] != Token::Print);
        assert(code[count - 1] != Token::MoveLeft && code[count - 1] != Token::MoveRight);
        assert forall|at: int| 0 <= at < body.len() implies #[trigger] moves_nothing(body, at) by {
            if at < before.len() {
                assert(moves_nothing(before, at));
                assert(body[at] == before[at]);
                if let Line::Branch(number) = body[at] {
                    let label = choose|label: int|
                        0 <= label < before.len() && #[trigger] before[label] == Line::Label(
                            number,
                        );
                    assert(body[label] == Line::Label(number));
                }
            } else {
                let part = at - before.len();
                assert(body[at] == lines_of(token, open)[part]);
                if token == Token::JumpBack && part == 2 {
                    lemma_label_written(code, count - 1, open);
                    let label = choose|label: int|
                        0 <= label < before.len() && #[trigger] before[label] == Line::Label(
                            open as nat,
                        );
                    assert(body[label] == Line::Label(open as nat));
                }
            }
        }
    }
}

/// The processor has its argument in the cursor once it is past the first
/// lines, and in the result once it is past the line that sets the result.
spec fn rests(lines: Seq<Line>, argument: int, processor: Processor) -> bool {
    &&& processor.argument == argument
    &&& (processor.line >= 4 ==> processor.cursor == argument)
    &&& (processor.returned || processor.line + 1 >= lines.len() ==> processor.result
        == argument)
}

proof fn lemma_cursor_rests(code: Seq<Token>, memory: Seq<Cell>, argument: int, count: nat)
    requires
        compilable(code),
        has_no_moves(code),
    ensures
        rests(
            routine(code),
            argument,
            Processor::entry(memory, argument).proceed(routine(code), count),
        ),
    decreases count,
{
    let lines = routine(code);
    let body = body_lines(code);
    lemma_last_lines(code);
    assert(code.take(code.len() as int) =~= code);
    assert(lines.len() == body.len() + 6);
    if count > 0 {
        lemma_cursor_rests(code, memory, argument, (count - 1) as nat);
        let before = Processor::entry(memory, argument).proceed(lines, (count - 1) as nat);
        let after = before.perform(lines);
        let here = before.line as int;
        if !before.returned && 4 <= here < lines.len() - 2 {
            lemma_body_moves_nothing(code, code.len() as int);
            assert(moves_nothing(body, here - 4));
            assert(lines[here] == body[here - 4]);
            if let Line::Branch(number) = lines[here] {
                let label = choose|label: int|
                    0 <= label < body.len() && #[trigger] body[label] == Line::Label(number);
                assert(lines[label + 4] == Line::Label(number));
                let found = label_line(lines, number);
                assert(found < lines.len() && lines[found as int] == Line::Label(number));
                assert(lines[0] == Line::Global);
                assert(lines[1] == Line::Section);
                assert(lines[2] == Line::Entry);
                assert(lines[3] == Line::Base);
            }
        } else if !before.returned && here < 4 {
            assert(lines[0] == Line::Global);
            assert(lines[1] == Line::Section);
            assert(lines[2] == Line::Entry);
            assert(lines[3] == Line::Base);
        }
    }
}

/// The routine written for a program without `<` and `>` returns, where it
/// returns, the data pointer with which the machine ends that program: both are
/// where they began. This holds of every machine and every number of
/// instructions that it can execute, whatever cells it meets its loop starts on,
/// for a routine that is called with any memory and with the address of the cell
/// under the data pointer, after any number of lines.
pub proof fn lemma_routine_without_moves_returns_data_pointer(
    start: Machine,
    count: nat,
    memory: Seq<Cell>,
    lines: nat,
)
    requires
        compilable(start.code),
        has_no_moves(start.code),
        start.runs(count),
    ensures
        Processor::entry(memory, start.mp as int).proceed(routine(start.code), lines).returned
            ==> Processor::entry(memory, start.mp as int).proceed(
            routine(start.code),
            lines,
        ).result == start.after(count).mp,
{
    lemma_data_pointer_rests(start, count);
    lemma_cursor_rests(start.code, memory, start.mp as int, lines);
}

} // verus!
