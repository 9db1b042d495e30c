//! The interpreter: a resolved program, a program counter and an
//! accumulator, advanced one instruction at a time.
//!
//! The interpreter does no input or output of its own. Whoever drives it
//! hands `next` the line that an `Inp` is to read, and gets from the status
//! of an `Out` the line that is to be written.

use crate::decimal::{decimal, format_literal, literal_value, parse_literal};
use crate::error::{Fault, LmcError};
use crate::instruction::LmcInstruction;
use crate::linker::{link_spec, Cell, PostLinkerProgram};
use crate::parser::parse_spec;
use crate::text::{chars_of, text_of, trim, trimmed};
use vstd::prelude::*;

verus! {

/// What one step leaves for the observer: the program counter before the
/// step, the instruction that ran, and the accumulator after the step.
#[derive(Debug, Clone, Copy, PartialEq, Eq)]
pub struct LmcStatus {
    pub pc: usize,
    pub accumulator: i64,
    pub instruction: LmcInstruction<usize, i64>,
}

/// The machine: the program it owns, where it stands, and what it holds.
pub struct LmcInterpreter {
    program: PostLinkerProgram,
    program_counter: usize,
    accumulator: i64,
}

/// The view of an `LmcInterpreter`.
pub struct Machine {
    pub cells: Seq<Cell>,
    pub pc: usize,
    pub acc: i64,
}

/// What a step that did not fail comes to: the machine after it, and the
/// status that it produced, which is `None` when the machine halted.
pub struct Advance {
    pub machine: Machine,
    pub status: Option<LmcStatus>,
}

impl View for LmcInterpreter {
    type V = Machine;

    closed spec fn view(&self) -> Machine {
        Machine { cells: self.program.0@, pc: self.program_counter, acc: self.accumulator }
    }
}

impl Machine {
    /// The machine before its first step: at cell zero, with zero in the
    /// accumulator.
    pub open spec fn start(cells: Seq<Cell>) -> Machine {
        Machine { cells, pc: 0, acc: 0 }
    }

    /// The instruction that the program counter points at.
    pub open spec fn current(self) -> Option<Cell> {
        if self.pc < self.cells.len() {
            Some(self.cells[self.pc as int])
        } else {
            None
        }
    }

    /// The datum in cell `address`. The cell must exist and be a `Dat`.
    pub open spec fn datum_at(self, address: usize) -> Result<i64, Fault> {
        if address >= self.cells.len() {
            Err(Fault::AddressOutOfRange(address))
        } else {
            match self.cells[address as int] {
                LmcInstruction::Dat(v) => Ok(v),
                _ => Err(Fault::TypeMismatchAtAddress(address)),
            }
        }
    }

    /// The step that leaves `acc` in the accumulator and goes on at `pc`.
    pub open spec fn proceed(self, acc: i64, pc: usize) -> Advance {
        Advance {
            machine: Machine { cells: self.cells, pc, acc },
            status: Some(LmcStatus { pc: self.pc, accumulator: acc, instruction: self.current()->0 }),
        }
    }

    /// The step that leaves `total` in the accumulator and goes on at the
    /// next cell, if `total` is in the range of the data.
    pub open spec fn settle(self, total: int) -> Result<Advance, Fault> {
        if i64::MIN <= total <= i64::MAX {
            Ok(self.proceed(total as i64, (self.pc + 1) as usize))
        } else {
            Err(Fault::ArithmeticOverflow(self.pc))
        }
    }

    /// One step of the machine, with `input` as the line that an `Inp`
    /// reads.
    ///
    /// | instruction | accumulator | program counter | memory |
    /// |---|---|---|---|
    /// | `Inp` | the number that `input` stands for | next | |
    /// | `Add(i)` | plus the datum in cell `i` | next | |
    /// | `Sub(i)` | minus the datum in cell `i` | next | |
    /// | `Sta(i)` | | next | cell `i` becomes a `Dat` of the accumulator |
    /// | `Lda(i)` | the datum in cell `i` | next | |
    /// | `Bra(i)` | | `i` | |
    /// | `Brz(i)` | | `i` if the accumulator is zero, else next | |
    /// | `Brp(i)` | | `i` if the accumulator is zero or more, else next | |
    /// | `Out` | | next | |
    /// | `Hlt` | | stays | |
    ///
    /// `Hlt` produces no status; every other step that does not fail
    /// produces one. The step fails
    /// - with `AddressOutOfRange` when the program counter, or the operand
    ///   of `Add`, `Sub`, `Sta` or `Lda`, is the index of no cell;
    /// - with `TypeMismatchAtAddress` when the program counter points at a
    ///   `Dat`, or such an operand at a cell that is no `Dat`;
    /// - with `MalformedInput` when `input`, without the white space around
    ///   it, is no literal;
    /// - with `ArithmeticOverflow` when a sum or a difference leaves the
    ///   range of the data.
    pub open spec fn step(self, input: Seq<char>) -> Result<Advance, Fault> {
        let next = (self.pc + 1) as usize;
        match self.current() {
            None => Err(Fault::AddressOutOfRange(self.pc)),
            Some(LmcInstruction::Inp) => match literal_value(trim(input)) {
                Some(v) => Ok(self.proceed(v, next)),
                None => Err(Fault::MalformedInput(trim(input))),
            },
            Some(LmcInstruction::Add(i)) => match self.datum_at(i) {
                Ok(v) => self.settle(self.acc + v),
                Err(fault) => Err(fault),
            },
            Some(LmcInstruction::Sub(i)) => match self.datum_at(i) {
                Ok(v) => self.settle(self.acc - v),
                Err(fault) => Err(fault),
            },
            Some(LmcInstruction::Sta(i)) => match self.datum_at(i) {
                Ok(_) => Ok(
                    Advance {
                        machine: Machine {
                            cells: self.cells.update(i as int, LmcInstruction::Dat(self.acc)),
                            pc: next,
                            acc: self.acc,
                        },
                        status: self.proceed(self.acc, next).status,
                    },
                ),
                Err(fault) => Err(fault),
            },
            Some(LmcInstruction::Lda(i)) => match self.datum_at(i) {
                Ok(v) => Ok(self.proceed(v, next)),
                Err(fault) => Err(fault),
            },
            Some(LmcInstruction::Bra(i)) => Ok(self.proceed(self.acc, i)),
            Some(LmcInstruction::Brz(i)) => Ok(
                self.proceed(
                    self.acc,
                    if self.acc == 0 {
                        i
                    } else {
                        next
                    },
                ),
            ),
            Some(LmcInstruction::Brp(i)) => Ok(
                self.proceed(
                    self.acc,
                    if self.acc >= 0 {
                        i
                    } else {
                        next
                    },
                ),
            ),
            Some(LmcInstruction::Out) => Ok(self.proceed(self.acc, next)),
            Some(LmcInstruction::Hlt) => Ok(Advance { machine: self, status: None }),
            Some(LmcInstruction::Dat(_)) => Err(Fault::TypeMismatchAtAddress(self.pc)),
        }
    }
}

impl LmcStatus {
    /// The line that the step wrote out: the accumulator in its canonical
    /// decimal form for an `Out`, nothing for every other instruction.
    pub open spec fn written(self) -> Option<Seq<char>> {
        if self.instruction is Out {
            Some(decimal(self.accumulator as int))
        } else {
            None
        }
    }

    /// The line that is to be written for this step, if any.
    pub fn output(&self) -> (result: Option<String>)
        ensures
            match self.written() {
                Some(line) => result matches Some(text) && text@ == line,
                None => result is None,
            },
    {
        match self.instruction {
            LmcInstruction::Out => Some(text_of(&format_literal(self.accumulator))),
            _ => None,
        }
    }
}

impl LmcInterpreter {
    /// The interpreter of `program`, before its first step.
    pub fn new(program: PostLinkerProgram) -> (result: Self)
        ensures
            result@ == Machine::start(program.0@),
    {
        LmcInterpreter { program, program_counter: 0, accumulator: 0 }
    }

    /// Where the machine stands.
    pub fn program_counter(&self) -> (result: usize)
        ensures
            result == self@.pc,
    {
        self.program_counter
    }

    /// What the machine holds.
    pub fn accumulator(&self) -> (result: i64)
        ensures
            result == self@.acc,
    {
        self.accumulator
    }

    /// The program as it stands, with what the machine has stored in it.
    pub fn program(&self) -> (result: &PostLinkerProgram)
        ensures
            result.0@ == self@.cells,
    {
        &self.program
    }

    /// Whether the next step reads a line: whether the program counter
    /// points at an `Inp`.
    pub fn awaits_input(&self) -> (result: bool)
        ensures
            result == (self@.current() == Some(LmcInstruction::<usize, i64>::Inp)),
    {
        if self.program_counter < self.program.0.len() {
            match self.program.0[self.program_counter] {
                LmcInstruction::Inp => true,
                _ => false,
            }
        } else {
            false
        }
    }

    /// The datum in cell `address`.
    fn load(&self, address: usize) -> (result: Result<i64, LmcError>)
        ensures
            match self@.datum_at(address) {
                Ok(v) => result == Ok::<i64, LmcError>(v),
                Err(fault) => result matches Err(e) && e@ == fault,
            },
    {
        if address >= self.program.0.len() {
            return Err(LmcError::AddressOutOfRange(address));
        }
        match self.program.0[address].value() {
            Some(v) => Ok(*v),
            None => Err(LmcError::TypeMismatchAtAddress(address)),
        }
    }

    /// Executes the instruction that the program counter points at.
    ///
    /// `input` is the line that the step reads if the instruction is an
    /// `Inp`; every other instruction ignores it. The result is the status
    /// of the step, `None` once the machine has come to a `Hlt`: it then
    /// stays there, and every further call gives `None` again. A step that
    /// fails changes nothing. What each instruction does, and when a step
    /// fails, is laid down in `Machine::step`.
    pub fn next(&mut self, input: &str) -> (result: Result<Option<LmcStatus>, LmcError>)
        ensures
            match old(self)@.step(input@) {
                Ok(advance) => result == Ok::<Option<LmcStatus>, LmcError>(advance.status)
                    && final(self)@ == advance.machine,
                Err(fault) => result matches Err(e) && e@ == fault && final(self)@ == old(self)@,
            },
    {
        let pc: usize = self.program_counter;
        if pc >= self.program.0.len() {
            return Err(LmcError::AddressOutOfRange(pc));
        }
        let instruction: LmcInstruction<usize, i64> = self.program.0[pc];
        match instruction {
            LmcInstruction::Inp => {
                let line: Vec<char> = trimmed(&chars_of(input));
                match parse_literal(&line) {
                    Some(v) => {
                        self.accumulator = v;
                        self.program_counter = pc + 1;
                    },
                    None => {
                        return Err(LmcError::MalformedInput(text_of(&line)));
                    },
                }
            },
            LmcInstruction::Add(index) => {
                let v: i64 = match self.load(index) {
                    Ok(v) => v,
                    Err(e) => {
                        return Err(e);
                    },
                };
                match self.accumulator.checked_add(v) {
                    Some(total) => {
                        self.accumulator = total;
                        self.program_counter = pc + 1;
                    },
                    None => {
                        return Err(LmcError::ArithmeticOverflow(pc));
                    },
                }
            },
            LmcInstruction::Sub(index) => {
                let v: i64 = match self.load(index) {
                    Ok(v) => v,
                    Err(e) => {
                        return Err(e);
                    },
                };
                match self.accumulator.checked_sub(v) {
                    Some(total) => {
                        self.accumulator = total;
                        self.program_counter = pc + 1;
                    },
                    None => {
                        return Err(LmcError::ArithmeticOverflow(pc));
                    },
                }
            },
            LmcInstruction::Sta(index) => {
                match self.load(index) {
                    Ok(_) => {},
                    Err(e) => {
                        return Err(e);
                    },
                }
                self.program.0.set(index, LmcInstruction::Dat(self.accumulator));
                self.program_counter = pc + 1;
            },
            LmcInstruction::Lda(index) => {
                match self.load(index) {
                    Ok(v) => {
                        self.accumulator = v;
                    },
                    Err(e) => {
                        return Err(e);
                    },
                }
                self.program_counter = pc + 1;
            },
            LmcInstruction::Bra(index) => {
                self.program_counter = index;
            },
            LmcInstruction::Brz(index) => {
                if self.accumulator == 0 {
                    self.program_counter = index;
                } else {
                    self.program_counter = pc + 1;
                }
            },
            LmcInstruction::Brp(index) => {
                if self.accumulator >= 0 {
                    self.program_counter = index;
                } else {
                    self.program_counter = pc + 1;
                }
            },
            LmcInstruction::Out => {
                self.program_counter = pc + 1;
            },
            LmcInstruction::Hlt => {
                return Ok(None);
            },
            LmcInstruction::Dat(_) => {
                return Err(LmcError::TypeMismatchAtAddress(pc));
            },
        }
        Ok(Some(LmcStatus { pc, accumulator: self.accumulator, instruction }))
    }
}

impl Machine {
    /// The statuses that the machine produces when `next` is called once
    /// for each of `inputs`, in order, each call with its line. The run
    /// ends with the last line, at a `Hlt`, or at the first step that
    /// fails, whichever comes first.
    pub open spec fn run(self, inputs: Seq<Seq<char>>) -> Seq<LmcStatus>
        decreases inputs.len(),
    {
        if inputs.len() == 0 {
            Seq::empty()
        } else {
            match self.step(inputs.first()) {
                Ok(advance) => match advance.status {
                    Some(status) => seq![status] + advance.machine.run(inputs.drop_first()),
                    None => Seq::empty(),
                },
                Err(_) => Seq::empty(),
            }
        }
    }

    /// Whether no cell of the program is an `Inp`.
    pub open spec fn reads_nothing(self) -> bool {
        forall|i: int| 0 <= i < self.cells.len() ==> !(#[trigger] self.cells[i] is Inp)
    }
}

/// `Brz` branches exactly when the accumulator is zero.
pub proof fn lemma_brz_branches_on_zero(m: Machine, input: Seq<char>, target: usize)
    requires
        m.current() == Some(LmcInstruction::<usize, i64>::Brz(target)),
    ensures
        m.step(input) is Ok,
        m.step(input)->Ok_0.machine.pc == (if m.acc == 0 {
            target
        } else {
            (m.pc + 1) as usize
        }),
        m.step(input)->Ok_0.machine.acc == m.acc,
        m.step(input)->Ok_0.machine.cells == m.cells,
{
}

/// `Brp` branches exactly when the accumulator is zero or more: at zero it
/// branches, below zero it does not.
pub proof fn lemma_brp_branches_on_zero_or_more(m: Machine, input: Seq<char>, target: usize)
    requires
        m.current() == Some(LmcInstruction::<usize, i64>::Brp(target)),
    ensures
        m.step(input) is Ok,
        m.step(input)->Ok_0.machine.pc == (if m.acc >= 0 {
            target
        } else {
            (m.pc + 1) as usize
        }),
        m.step(input)->Ok_0.machine.acc == m.acc,
        m.step(input)->Ok_0.machine.cells == m.cells,
{
}

/// A step produces no status exactly when it executes a `Hlt`, and a `Hlt`
/// leaves the machine as it was: a halted machine stays halted.
pub proof fn lemma_halt_is_final(m: Machine, input: Seq<char>)
    ensures
        m.step(input) matches Ok(advance) ==> (advance.status is None <==> m.current() == Some(
            LmcInstruction::<usize, i64>::Hlt,
        )),
        m.current() == Some(LmcInstruction::<usize, i64>::Hlt) ==> m.step(input) == Ok::<
            Advance,
            Fault,
        >(Advance { machine: m, status: None }),
        m.current() == Some(LmcInstruction::<usize, i64>::Hlt) ==> m.step(input)->Ok_0.machine.step(
            input,
        ) == m.step(input),
{
}

/// A run holds one status for each instruction that was executed before the
/// machine halted or failed, and none of them is the status of a `Hlt`: the
/// `k`-th status is that of the instruction the machine came to after `k`
/// steps. A run that starts at a `Hlt` is empty.
pub proof fn lemma_run_counts_steps(m: Machine, inputs: Seq<Seq<char>>)
    ensures
        m.run(inputs).len() <= inputs.len(),
        forall|k: int|
            0 <= k < m.run(inputs).len() ==> !((#[trigger] m.run(inputs)[k]).instruction is Hlt),
        m.current() == Some(LmcInstruction::<usize, i64>::Hlt) ==> m.run(inputs).len() == 0,
        m.run(inputs).len() > 0 ==> m.run(inputs)[0].pc == m.pc && m.current() == Some(
            m.run(inputs)[0].instruction,
        ),
    decreases inputs.len(),
{
    if inputs.len() > 0 {
        match m.step(inputs.first()) {
            Ok(advance) => {
                if advance.status is Some {
                    lemma_run_counts_steps(advance.machine, inputs.drop_first());
                    let rest = advance.machine.run(inputs.drop_first());
                    assert forall|k: int| 0 <= k < m.run(inputs).len() implies !((
                    #[trigger] m.run(inputs)[k]).instruction is Hlt) by {
                        if k > 0 {
                            assert(m.run(inputs)[k] == rest[k - 1]);
                        }
                    }
                }
            },
            Err(_) => {},
        }
    }
}

/// A step of a program without `Inp` does not depend on the line it is
/// given, and leaves a program without `Inp`.
pub proof fn lemma_step_ignores_input(m: Machine, a: Seq<char>, b: Seq<char>)
    requires
        m.reads_nothing(),
    ensures
        m.step(a) == m.step(b),
        m.step(a) matches Ok(advance) ==> advance.machine.reads_nothing(),
{
    if m.pc < m.cells.len() {
        assert(!(m.cells[m.pc as int] is Inp));
    }
}

/// Running a program without `Inp` is deterministic: whatever lines are
/// offered, two runs of the same length from the same machine produce the
/// same statuses.
pub proof fn lemma_run_is_deterministic(m: Machine, a: Seq<Seq<char>>, b: Seq<Seq<char>>)
    requires
        m.reads_nothing(),
        a.len() == b.len(),
    ensures
        m.run(a) == m.run(b),
    decreases a.len(),
{
    if a.len() > 0 {
        lemma_step_ignores_input(m, a.first(), b.first());
        match m.step(a.first()) {
            Ok(advance) => {
                if advance.status is Some {
                    lemma_run_is_deterministic(advance.machine, a.drop_first(), b.drop_first());
                }
            },
            Err(_) => {},
        }
    }
}

/// Every fresh link of one source runs alike: where the linked program holds
/// no `Inp`, the statuses of a run from its start are the same whatever
/// lines the run is offered.
pub proof fn lemma_fresh_runs_agree(source: Seq<char>, a: Seq<Seq<char>>, b: Seq<Seq<char>>)
    requires
        parse_spec(source) is Ok,
        link_spec(parse_spec(source)->Ok_0) is Ok,
        Machine::start(link_spec(parse_spec(source)->Ok_0)->Ok_0).reads_nothing(),
        a.len() == b.len(),
    ensures
        Machine::start(link_spec(parse_spec(source)->Ok_0)->Ok_0).run(a) == Machine::start(
            link_spec(parse_spec(source)->Ok_0)->Ok_0,
        ).run(b),
{
    lemma_run_is_deterministic(Machine::start(link_spec(parse_spec(source)->Ok_0)->Ok_0), a, b);
}

} // verus!
