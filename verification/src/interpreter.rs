use std::collections::VecDeque;
use vstd::prelude::*;

use crate::error::Error;
use crate::machine::{
    has_no_moves, lemma_data_pointer_rests, lemma_execute_keeps_well_formed, Machine,
};
use crate::parser::types::{Address, Cell};
use crate::parser::Token;

verus! {

/// The number of cells of a tape whose size was not given.
pub const DEFAULT_MEMORY_SIZE: Address = 30_000;

const STACK_INITIAL_SIZE: usize = 32;

/// The tape machine: it executes an instruction stream on a tape of fixed size.
#[derive(Debug)]
pub struct Interpreter {
    /// Memory
    pub memory: Vec<Cell>,
    /// Program code
    pub code: Vec<Token>,
    /// Memory pointer
    pub mp: Address,
    /// Instruction pointer
    pub ip: Address,
    /// Loop stack and channels
    pub internals: Internals,
}

/// What the machine keeps to itself: the return addresses of the loops it is in,
/// and its two channels.
#[derive(Debug)]
pub struct Internals {
    loop_stack: Vec<Address>,
    input: VecDeque<Cell>,
    output: Vec<Cell>,
}

impl Internals {
    /// The return addresses of the loops that the machine is in, innermost last.
    pub closed spec fn return_addresses(&self) -> Seq<nat> {
        self.loop_stack@.map_values(|address: Address| address as nat)
    }

    /// The bytes that wait on the input channel, the next one first.
    pub closed spec fn pending_input(&self) -> Seq<Cell> {
        self.input@
    }

    /// The bytes written to the output channel and not yet taken from it.
    pub closed spec fn written_output(&self) -> Seq<Cell> {
        self.output@
    }
}

/// The size of the tape that `new` builds for a given choice.
pub open spec fn memory_size_of(memory_size: Option<Address>) -> nat {
    match memory_size {
        Some(size) => size as nat,
        None => DEFAULT_MEMORY_SIZE as nat,
    }
}

impl View for Interpreter {
    type V = Machine;

    open spec fn view(&self) -> Machine {
        Machine {
            code: self.code@,
            memory: self.memory@,
            mp: self.mp as nat,
            ip: self.ip as nat,
            loop_stack: self.internals.return_addresses(),
            input: self.internals.pending_input(),
            output: self.internals.written_output(),
        }
    }
}

/// The watchdog, shown the machine `vm`, may answer that the run is to end.
pub open spec fn may_stop<F: Fn(&Interpreter) -> Result<(), ()>>(
    watchdog: F,
    vm: Interpreter,
) -> bool {
    exists|verdict: Result<(), ()>|
        verdict is Err && #[trigger] call_ensures(watchdog, (&vm,), verdict)
}

/// The watchdog, shown a machine in `state`, may answer that the run is to go on.
pub open spec fn may_pass<F: Fn(&Interpreter) -> Result<(), ()>>(
    watchdog: F,
    state: Machine,
) -> bool {
    exists|vm: Interpreter, verdict: Result<(), ()>|
        vm@ == state && verdict is Ok && #[trigger] call_ensures(watchdog, (&vm,), verdict)
}

/// The watchdog was shown the machine before each of the first `count`
/// instructions of the run from `start`, and let each of them pass.
pub open spec fn passes<F: Fn(&Interpreter) -> Result<(), ()>>(
    watchdog: F,
    start: Machine,
    count: nat,
) -> bool {
    forall|earlier: nat| earlier < count ==> may_pass(watchdog, #[trigger] start.after(earlier))
}

/// The run from `start` comes to show `vm` to the watchdog: the machine can
/// execute some number of instructions, is then as `vm` is, and has not halted.
pub open spec fn shows(start: Machine, vm: Interpreter) -> bool {
    exists|count: nat| #[trigger] start.runs(count) && vm@ == start.after(count) && !vm@.halted()
}

/// The watchdog stops every machine that it is shown in `state`.
pub open spec fn always_stops<F: Fn(&Interpreter) -> Result<(), ()>>(
    watchdog: F,
    state: Machine,
) -> bool {
    forall|vm: Interpreter, verdict: Result<(), ()>|
        vm@ == state && #[trigger] call_ensures(watchdog, (&vm,), verdict) ==> verdict is Err
}

/// A run from `start` under `watchdog` is over after `count` instructions at the
/// latest: the machine can execute that many, and then it has halted, or its next
/// instruction fails, or the watchdog stops it.
pub open spec fn ends_within<F: Fn(&Interpreter) -> Result<(), ()>>(
    watchdog: F,
    start: Machine,
    count: nat,
) -> bool {
    let last = start.after(count);
    &&& start.runs(count)
    &&& (last.halted() || last.step() is Err || always_stops(watchdog, last))
}

impl Interpreter {
    /// A machine at the start of `code`, on a tape of `memory_size` zero cells
    /// (30,000 where no size is given), with nothing on its channels.
    pub fn new(code: Vec<Token>, memory_size: Option<Address>) -> (vm: Self)
        requires
            memory_size_of(memory_size) <= usize::MAX,
        ensures
            vm@ == Machine::start(code@, memory_size_of(memory_size)),
    {
        let size: Address = match memory_size {
            Some(size) => size,
            None => DEFAULT_MEMORY_SIZE,
        };
        let mut memory: Vec<Cell> = Vec::new();
        memory.resize(size as usize, 0);
        let vm = Self {
            memory,
            code,
            mp: 0,
            ip: 0,
            internals: Internals {
                loop_stack: Vec::with_capacity(STACK_INITIAL_SIZE),
                input: VecDeque::new(),
                output: Vec::new(),
            },
        };
        proof {
            let start = Machine::start(code@, memory_size_of(memory_size));
            assert(vm@.memory =~= start.memory);
            assert(vm@.loop_stack =~= start.loop_stack);
        }
        vm
    }

    /// The cell at `address`, if the tape has one there.
    pub fn get_memory(&self, address: Address) -> (cell: Option<&Cell>)
        ensures
            address < self@.memory.len() ==> cell == Some(&self@.memory[address as int]),
            address >= self@.memory.len() ==> cell is None,
    {
        if address < self.memory.len() as Address {
            Some(&self.memory[address as usize])
        } else {
            None
        }
    }

    /// The cell at `address`, to be written to, if the tape has one there.
    pub fn get_memory_mut(&mut self, address: Address) -> (cell: Option<&mut Cell>)
        ensures
            match cell {
                Some(cell) => {
                    &&& address < old(self)@.memory.len()
                    &&& *cell == old(self)@.memory[address as int]
                    &&& final(self)@ == old(self)@.write(address as nat, *final(cell))
                },
                None => address >= old(self)@.memory.len() && final(self)@ == old(self)@,
            },
    {
        if address < self.memory.len() as Address {
            Some(&mut self.memory[address as usize])
        } else {
            None
        }
    }

    /// Says whether the machine has halted: whether its instruction pointer has
    /// reached the end of its program.
    pub fn halted(&self) -> (halted: bool)
        ensures
            halted == self@.halted(),
    {
        self.ip >= self.code.len() as Address
    }

    /// Says whether the machine cannot go on before its input channel is given a
    /// byte: whether its next instruction reads one and none waits there.
    pub fn awaits_input(&self) -> (waiting: bool)
        ensures
            waiting == (!self@.halted() && self@.code[self@.ip as int] == Token::GetInput
                && self@.input.len() == 0),
    {
        if self.ip < self.code.len() as Address {
            assert(self.code@.len() == self.code.len());
            match self.code[self.ip as usize] {
                Token::GetInput => self.internals.input.len() == 0,
                _ => false,
            }
        } else {
            false
        }
    }

    /// Puts one more byte on the input channel, behind those that wait there.
    pub fn push_input(&mut self, byte: Cell)
        ensures
            final(self)@ == old(self)@.fed(byte),
    {
        self.internals.input.push_back(byte);
    }

    /// Takes from the output channel the bytes written to it, in the order in
    /// which they were written, and leaves the channel empty.
    pub fn take_output(&mut self) -> (bytes: Vec<Cell>)
        ensures
            bytes@ == old(self)@.output,
            final(self)@ == old(self)@.drained(),
    {
        let mut bytes: Vec<Cell> = Vec::new();
        std::mem::swap(&mut bytes, &mut self.internals.output);
        bytes
    }

    /// Executes one instruction, which need not be the one under the instruction
    /// pointer. Where it fails the machine is left as it was.
    pub fn evaluate(&mut self, code: Token) -> (result: Result<(), Error>)
        requires
            old(self)@.well_formed(),
            (old(self)@.execute(code) matches Ok(next) ==> next.ip <= Address::MAX),
        ensures
            match old(self)@.execute(code) {
                Ok(next) => result is Ok && final(self)@ == next,
                Err(error) => result == Err::<(), Error>(error) && final(self)@ == old(self)@,
            },
            code != Token::MoveLeft && code != Token::MoveRight ==> final(self).mp == old(self).mp,
            code == Token::MoveLeft ==> (old(self).mp == 0 <==> result == Err::<(), Error>(
                Error::OutsideBounds(old(self).ip),
            )),
            code == Token::MoveLeft ==> (old(self).mp > 0 <==> result is Ok),
            code == Token::MoveRight ==> (old(self).mp == old(self).memory.len() - 1 <==> result
                == Err::<(), Error>(Error::OutsideBounds(old(self).ip))),
            code == Token::MoveRight ==> (old(self).mp < old(self).memory.len() - 1
                <==> result is Ok),
    {
        match code {
            Token::MoveLeft => {
                if self.mp <= 0 {
                    Err(Error::OutsideBounds(self.ip))
                } else {
                    self.mp -= 1;
                    self.ip += 1;
                    Ok(())
                }
            },
            Token::MoveRight => {
                if self.mp >= (self.memory.len() - 1) as Address {
                    Err(Error::OutsideBounds(self.ip))
                } else {
                    self.mp += 1;
                    self.ip += 1;
                    Ok(())
                }
            },
            Token::IncreaseValue => {
                let mem = self.get_current_memory_mut();
                *mem = mem.wrapping_add(1);
                self.ip += 1;
                Ok(())
            },
            Token::DecreaseValue => {
                let mem = self.get_current_memory_mut();
                *mem = mem.wrapping_sub(1);
                self.ip += 1;
                Ok(())
            },
            Token::Loop => {
                if *self.get_current_memory() != 0 {
                    self.internals.loop_stack.push(self.ip + 1);
                    assert(self@.loop_stack =~= old(self)@.loop_stack.push(
                        (old(self).ip + 1) as nat,
                    ));
                }
                self.ip += 1;
                Ok(())
            },
            Token::JumpBack => {
                if self.internals.loop_stack.len() == 0 {
                    return Err(Error::ExpectedLoopStart(self.ip));
                } else {
                    if *self.get_current_memory() != 0 {
                        let innermost = self.internals.loop_stack.len() - 1;
                        self.ip = self.internals.loop_stack[innermost];
                    } else {
                        let _ = self.internals.loop_stack.pop();
                        assert(self@.loop_stack =~= old(self)@.loop_stack.drop_last());
                        self.ip += 1;
                    }
                }
                Ok(())
            },
            Token::GetInput => match self.internals.input.pop_front() {
                None => Err(Error::Io),
                Some(v) => {
                    *self.get_current_memory_mut() = v;
                    assert(self@.input =~= old(self)@.input.drop_first());
                    self.ip += 1;
                    Ok(())
                },
            },
            Token::Print => {
                let cell = *self.get_current_memory();
                self.internals.output.push(cell);
                self.ip += 1;
                Ok(())
            },
        }
    }

    /// Executes the instruction under the instruction pointer. Where it fails the
    /// machine is left as it was.
    pub fn step(&mut self) -> (result: Result<(), Error>)
        requires
            old(self)@.well_formed(),
            !old(self)@.halted(),
        ensures
            match old(self)@.step() {
                Ok(next) => result is Ok && final(self)@ == next,
                Err(error) => result == Err::<(), Error>(error) && final(self)@ == old(self)@,
            },
            has_no_moves(old(self)@.code) ==> final(self).mp == old(self).mp,
    {
        assert(self.code@.len() == self.code.len());
        let token = self.code[self.ip as usize];
        self.evaluate(token)
    }

    /// Executes instructions until the program ends. Before each instruction it
    /// shows the machine to `watchdog`, and stops with `WatchdogError` when that
    /// says so; it stops with the error of the first instruction that fails. The
    /// machine is left as it was before the instruction that was not executed.
    pub fn run<F>(&mut self, watchdog: F) -> (result: Result<(), Error>) where
        F: Fn(&Self) -> Result<(), ()>,

        requires
            old(self)@.well_formed(),
            forall|vm: Interpreter|
                shows(old(self)@, vm) ==> #[trigger] call_requires(watchdog, (&vm,)),
            exists|count: nat| ends_within(watchdog, old(self)@, count),
        ensures
            final(self)@.well_formed(),
            has_no_moves(old(self)@.code) ==> final(self).mp == old(self).mp,
            exists|count: nat|
                {
                    &&& #[trigger] old(self)@.runs(count)
                    &&& final(self)@ == old(self)@.after(count)
                    &&& passes(watchdog, old(self)@, count)
                    &&& match result {
                        Ok(()) => final(self)@.halted(),
                        Err(Error::WatchdogError) => !final(self)@.halted() && may_stop(
                            watchdog,
                            *final(self),
                        ),
                        Err(error) => !final(self)@.halted() && final(self)@.step() == Err::<
                            Machine,
                            Error,
                        >(error),
                    }
                },
    {
        let ghost start = self@;
        let ghost limit: nat = choose|count: nat| ends_within(watchdog, start, count);
        let ghost mut done: nat = 0;
        while !self.halted()
            invariant
                start == old(self)@,
                self@.well_formed(),
                start.runs(done),
                self@ == start.after(done),
                done <= limit,
                ends_within(watchdog, start, limit),
                passes(watchdog, start, done),
                forall|vm: Interpreter|
                    shows(start, vm) ==> #[trigger] call_requires(watchdog, (&vm,)),
            decreases limit - done,
        {
            assert(self.code@.len() == self.code.len());
            assert(shows(start, *self));
            proof {
                if has_no_moves(start.code) {
                    lemma_data_pointer_rests(start, done);
                }
            }
            match watchdog(self) {
                Err(_) => return Err(Error::WatchdogError),
                Ok(_) => {},
            }
            assert(!always_stops(watchdog, self@));
            assert(may_pass(watchdog, self@));
            let ghost before = self@;
            match self.step() {
                Err(error) => return Err(error),
                Ok(_) => {},
            }
            proof {
                lemma_execute_keeps_well_formed(before, before.code[before.ip as int]);
                done = done + 1;
            }
        }
        proof {
            assert(self.code@.len() == self.code.len());
            if has_no_moves(start.code) {
                lemma_data_pointer_rests(start, done);
            }
        }
        Ok(())
    }

    /// The cell under the data pointer.
    pub fn get_current_memory(&self) -> (cell: &Cell)
        requires
            self@.well_formed(),
        ensures
            *cell == self@.cell(),
    {
        assert(self.memory@.len() == self.memory.len());
        &self.memory[self.mp as usize]
    }

    /// The cell under the data pointer, to be written to.
    pub fn get_current_memory_mut(&mut self) -> (cell: &mut Cell)
        requires
            old(self)@.well_formed(),
        ensures
            *cell == old(self)@.cell(),
            final(self)@ == old(self)@.store(*final(cell)),
    {
        assert(self.memory@.len() == self.memory.len());
        &mut self.memory[self.mp as usize]
    }
}

} // verus!
