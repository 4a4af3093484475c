use vstd::prelude::*;

use crate::error::Error;
use crate::parser::types::{Address, Cell};
use crate::parser::Token;

verus! {

/// The tape machine as a mathematical value: its program, its tape, its two
/// pointers, the return addresses of the loops it is in, the bytes still waiting
/// on its input channel and the bytes it has written to its output channel.
pub struct Machine {
    pub code: Seq<Token>,
    pub memory: Seq<Cell>,
    pub mp: nat,
    pub ip: nat,
    pub loop_stack: Seq<nat>,
    pub input: Seq<Cell>,
    pub output: Seq<Cell>,
}

/// A cell after one increment: 255 wraps around to 0.
pub open spec fn incremented(cell: Cell) -> Cell {
    if cell == 255 {
        0
    } else {
        (cell + 1) as Cell
    }
}

/// A cell after one decrement: 0 wraps around to 255.
pub open spec fn decremented(cell: Cell) -> Cell {
    if cell == 0 {
        255
    } else {
        (cell - 1) as Cell
    }
}

impl Machine {
    /// The machine before its first instruction: a tape of `size` zero cells, both
    /// pointers at 0, no loop entered, nothing to read and nothing written.
    pub open spec fn start(code: Seq<Token>, size: nat) -> Machine {
        Machine {
            code,
            memory: Seq::new(size, |i: int| 0u8),
            mp: 0,
            ip: 0,
            loop_stack: Seq::empty(),
            input: Seq::empty(),
            output: Seq::empty(),
        }
    }

    /// The data pointer stands on a cell of the tape.
    pub open spec fn well_formed(self) -> bool {
        self.mp < self.memory.len()
    }

    /// The cell under the data pointer.
    pub open spec fn cell(self) -> Cell {
        self.memory[self.mp as int]
    }

    /// The instruction pointer has reached the end of the program.
    pub open spec fn halted(self) -> bool {
        self.ip >= self.code.len()
    }

    /// This machine with another value in the cell at `address`.
    pub open spec fn write(self, address: nat, cell: Cell) -> Machine {
        Machine { memory: self.memory.update(address as int, cell), ..self }
    }

    /// This machine with another value in the cell under the data pointer.
    pub open spec fn store(self, cell: Cell) -> Machine {
        self.write(self.mp, cell)
    }

    /// This machine with one more byte at the end of its input channel.
    pub open spec fn fed(self, byte: Cell) -> Machine {
        Machine { input: self.input.push(byte), ..self }
    }

    /// This machine with nothing left on its output channel.
    pub open spec fn drained(self) -> Machine {
        Machine { output: Seq::empty(), ..self }
    }

    /// This machine with the instruction pointer at `address`.
    pub open spec fn jump(self, address: nat) -> Machine {
        Machine { ip: address, ..self }
    }

    /// This machine with the instruction pointer one further.
    pub open spec fn advance(self) -> Machine {
        Machine { ip: self.ip + 1, ..self }
    }

    /// What one instruction does to the machine: the state that follows, or the
    /// error with the address of the instruction that failed.
    pub open spec fn execute(self, token: Token) -> Result<Machine, Error> {
        match token {
            Token::MoveLeft => if self.mp == 0 {
                Err(Error::OutsideBounds(self.ip as Address))
            } else {
                Ok(Machine { mp: (self.mp - 1) as nat, ..self }.advance())
            },
            Token::MoveRight => if self.mp + 1 >= self.memory.len() {
                Err(Error::OutsideBounds(self.ip as Address))
            } else {
                Ok(Machine { mp: self.mp + 1, ..self }.advance())
            },
            Token::IncreaseValue => Ok(self.store(incremented(self.cell())).advance()),
            Token::DecreaseValue => Ok(self.store(decremented(self.cell())).advance()),
            Token::Loop => if self.cell() != 0 {
                Ok(Machine { loop_stack: self.loop_stack.push(self.ip + 1), ..self }.advance())
            } else {
                Ok(self.advance())
            },
            Token::JumpBack => if self.loop_stack.len() == 0 {
                Err(Error::ExpectedLoopStart(self.ip as Address))
            } else if self.cell() != 0 {
                Ok(Machine { ip: self.loop_stack.last(), ..self })
            } else {
                Ok(Machine { loop_stack: self.loop_stack.drop_last(), ..self }.advance())
            },
            Token::GetInput => if self.input.len() == 0 {
                Err(Error::Io)
            } else {
                let read = self.store(self.input[0]);
                Ok(Machine { input: self.input.drop_first(), ..read }.advance())
            },
            Token::Print => Ok(Machine { output: self.output.push(self.cell()), ..self }.advance()),
        }
    }

    /// What the instruction under the instruction pointer does to the machine.
    pub open spec fn step(self) -> Result<Machine, Error> {
        self.execute(self.code[self.ip as int])
    }

    /// The state after `count` instructions. It means something only where
    /// `runs(count)` holds.
    pub open spec fn after(self, count: nat) -> Machine
        decreases count,
    {
        if count == 0 {
            self
        } else {
            match self.after((count - 1) as nat).step() {
                Ok(next) => next,
                Err(_) => self.after((count - 1) as nat),
            }
        }
    }

    /// The machine can execute `count` instructions in a row: before each of them
    /// it has not halted, and each of them succeeds.
    pub open spec fn runs(self, count: nat) -> bool
        decreases count,
    {
        count == 0 || {
            let before = self.after((count - 1) as nat);
            &&& self.runs((count - 1) as nat)
            &&& !before.halted()
            &&& before.step() is Ok
        }
    }
}

/// The instruction stream has no instruction that moves the data pointer.
pub open spec fn has_no_moves(code: Seq<Token>) -> bool {
    forall|i: int|
        0 <= i < code.len() ==> #[trigger] code[i] != Token::MoveLeft && code[i]
            != Token::MoveRight
}

/// No instruction takes the data pointer off the tape, changes the program or
/// changes the size of the tape.
pub proof fn lemma_execute_keeps_well_formed(state: Machine, token: Token)
    requires
        state.well_formed(),
    ensures
        state.execute(token) matches Ok(next) ==> next.well_formed() && next.code == state.code
            && next.memory.len() == state.memory.len(),
{
}

/// However many instructions a machine executes, its data pointer stays on the
/// tape, and its program and the size of its tape stay as they were.
pub proof fn lemma_run_keeps_well_formed(start: Machine, count: nat)
    requires
        start.well_formed(),
        start.runs(count),
    ensures
        start.after(count).well_formed(),
        start.after(count).code == start.code,
        start.after(count).memory.len() == start.memory.len(),
    decreases count,
{
    if count > 0 {
        let before = start.after((count - 1) as nat);
        lemma_run_keeps_well_formed(start, (count - 1) as nat);
        lemma_execute_keeps_well_formed(before, before.code[before.ip as int]);
    }
}

/// A move to the left fails on the first cell of the tape and nowhere else, a move
/// to the right on the last cell and nowhere else, and each failure names the
/// address of the move.
pub proof fn lemma_moves_stay_on_tape(state: Machine)
    requires
        state.well_formed(),
        state.ip <= Address::MAX,
    ensures
        state.mp == 0 <==> state.execute(Token::MoveLeft) == Err::<Machine, Error>(
            Error::OutsideBounds(state.ip as Address),
        ),
        state.mp > 0 <==> state.execute(Token::MoveLeft) is Ok,
        state.mp == state.memory.len() - 1 <==> state.execute(Token::MoveRight) == Err::<
            Machine,
            Error,
        >(Error::OutsideBounds(state.ip as Address)),
        state.mp < state.memory.len() - 1 <==> state.execute(Token::MoveRight) is Ok,
{
}

/// A machine that can execute some number of instructions can execute every
/// smaller number of them.
pub proof fn lemma_runs_every_part(start: Machine, count: nat, part: nat)
    requires
        start.runs(count),
        part <= count,
    ensures
        start.runs(part),
    decreases count,
{
    if part < count {
        lemma_runs_every_part(start, (count - 1) as nat, part);
    }
}

/// A machine never goes on past its end or past an instruction that fails: once
/// it has halted, or its next instruction fails, it executes no further
/// instruction.
pub proof fn lemma_runs_no_further(start: Machine, count: nat, more: nat)
    requires
        start.runs(count),
        start.after(count).halted() || start.after(count).step() is Err,
        start.runs(more),
    ensures
        more <= count,
{
    if more > count {
        lemma_runs_every_part(start, more, count + 1);
    }
}

/// A program without `<` and `>` leaves the data pointer where it was, however
/// many of its instructions are executed.
pub proof fn lemma_data_pointer_rests(start: Machine, count: nat)
    requires
        has_no_moves(start.code),
        start.runs(count),
    ensures
        start.after(count).mp == start.mp,
        start.after(count).code == start.code,
    decreases count,
{
    if count > 0 {
        lemma_data_pointer_rests(start, (count - 1) as nat);
    }
}

/// The remainder after division by 256 of a cell and a number of steps up.
pub open spec fn wrapped(cell: Cell, steps: int) -> Cell {
    ((cell + steps) % 256) as Cell
}

/// A row of `count` increments adds `count` to the cell under the data pointer,
/// modulo 256, and changes no pointer but the instruction pointer, which it takes
/// past the row.
pub proof fn lemma_increments_wrap(start: Machine, count: nat)
    requires
        start.well_formed(),
        start.ip + count <= start.code.len(),
        forall|i: int|
            start.ip <= i < start.ip + count ==> #[trigger] start.code[i] == Token::IncreaseValue,
    ensures
        start.runs(count),
        start.after(count) == start.store(wrapped(start.cell(), count as int)).jump(
            start.ip + count,
        ),
    decreases count,
{
    if count == 0 {
        assert(start.memory.update(start.mp as int, start.cell()) =~= start.memory);
    } else {
        lemma_increments_wrap(start, (count - 1) as nat);
        let before = start.after((count - 1) as nat);
        let middle = wrapped(start.cell(), count - 1);
        assert(before.code[before.ip as int] == Token::IncreaseValue);
        assert(incremented(middle) == wrapped(start.cell(), count as int));
        assert(start.memory.update(start.mp as int, middle).update(
            start.mp as int,
            wrapped(start.cell(), count as int),
        ) =~= start.memory.update(start.mp as int, wrapped(start.cell(), count as int)));
    }
}

/// A row of `count` decrements takes `count` from the cell under the data
/// pointer, modulo 256, and changes no pointer but the instruction pointer, which
/// it takes past the row.
pub proof fn lemma_decrements_wrap(start: Machine, count: nat)
    requires
        start.well_formed(),
        start.ip + count <= start.code.len(),
        forall|i: int|
            start.ip <= i < start.ip + count ==> #[trigger] start.code[i] == Token::DecreaseValue,
    ensures
        start.runs(count),
        start.after(count) == start.store(wrapped(start.cell(), -(count as int))).jump(
            start.ip + count,
        ),
    decreases count,
{
    if count == 0 {
        assert(start.memory.update(start.mp as int, start.cell()) =~= start.memory);
    } else {
        lemma_decrements_wrap(start, (count - 1) as nat);
        let before = start.after((count - 1) as nat);
        let middle = wrapped(start.cell(), -(count - 1));
        assert(before.code[before.ip as int] == Token::DecreaseValue);
        assert(decremented(middle) == wrapped(start.cell(), -(count as int)));
        assert(start.memory.update(start.mp as int, middle).update(
            start.mp as int,
            wrapped(start.cell(), -(count as int)),
        ) =~= start.memory.update(start.mp as int, wrapped(start.cell(), -(count as int))));
    }
}

/// A program whose first loop end stands at `position`, with no loop start before
/// it, fails there with the address of that loop end, where the instructions
/// before it succeed.
pub proof fn lemma_stray_loop_end_fails(start: Machine, position: nat)
    requires
        start.ip == 0,
        start.loop_stack.len() == 0,
        position < start.code.len(),
        position <= Address::MAX,
        start.code[position as int] == Token::JumpBack,
        forall|i: int|
            0 <= i < position ==> #[trigger] start.code[i] != Token::Loop && start.code[i]
                != Token::JumpBack,
        start.runs(position),
    ensures
        start.after(position).step() == Err::<Machine, Error>(
            Error::ExpectedLoopStart(position as Address),
        ),
{
    lemma_straight_line(start, position, position);
}

/// As long as a machine that is in no loop meets no loop start and no loop end,
/// it executes its instructions one after the other and stays in no loop.
proof fn lemma_straight_line(start: Machine, position: nat, count: nat)
    requires
        start.ip == 0,
        start.loop_stack.len() == 0,
        count <= position <= start.code.len(),
        forall|i: int|
            0 <= i < position ==> #[trigger] start.code[i] != Token::Loop && start.code[i]
                != Token::JumpBack,
        start.runs(count),
    ensures
        start.after(count).ip == count,
        start.after(count).loop_stack.len() == 0,
        start.after(count).code == start.code,
    decreases count,
{
    if count > 0 {
        lemma_straight_line(start, position, (count - 1) as nat);
    }
}

} // verus!
