//! The interpreter, as a step machine.
//!
//! A loaded program is flattened into a list of operations in which every
//! loop becomes a forward test (`Enter`) and a backward test (`Repeat`) that
//! know each other's positions. Each call of [`Executor::step`] performs one
//! operation; reading and writing are handed to the caller as an [`Action`],
//! so the caller owns the streams and decides how long to keep stepping.

use vstd::prelude::*;

use vstd::string::StringSliceAdditionalSpecFns;

use crate::error::{CompileFailure, Error};
use crate::instruction::{models, Instruction, Ir};
use crate::parser::{lemma_models_index, lemma_models_len, parse, parse_spec};
use crate::compiler::{ring_step, ring_step_of};
use crate::MEMORY_SIZE;

verus! {

/// Longest flattened program accepted.
pub const FLAT_LIMIT: usize = 0x4000_0000;

/// One operation of a flattened program.
#[derive(Debug, Clone, Copy, PartialEq, Eq, Structural)]
pub enum Op {
    /// Move the data pointer by the given distance.
    Move(isize),
    /// Add to the current cell, wrapping at 256.
    Add(u8),
    /// Hand the current cell to the caller.
    Write,
    /// Ask the caller for a byte.
    Read,
    /// Set the current cell to zero.
    Clear,
    /// Add the current cell to the cell this far away, then clear it.
    AddTo(isize),
    /// Start of a loop: when the current cell is zero, go to the position given.
    Enter(usize),
    /// End of a loop: when the current cell is non-zero, go to the position given.
    Repeat(usize),
}

/// What the caller has to do after a step.
#[derive(Debug, Clone, Copy, PartialEq, Eq, Structural)]
pub enum Action {
    /// Nothing: step again.
    Continue,
    /// Write this byte to the output stream, then step again.
    Output(u8),
    /// Read one byte from the input stream and hand it to
    /// [`Executor::supply`], then step again.
    Input,
    /// The program has finished.
    Halt,
}

/// The number of flat operations an instruction becomes.
pub open spec fn flat_size(i: Ir) -> nat
    decreases i, 0nat,
{
    match i {
        Ir::Loop(body) => flat_seq_size(body) + 2,
        _ => 1,
    }
}

/// The number of flat operations a sequence becomes.
pub open spec fn flat_seq_size(s: Seq<Ir>) -> nat
    decreases s, s.len(),
{
    if s.len() == 0 {
        0
    } else {
        flat_seq_size(s.drop_last()) + flat_size(s.last())
    }
}

/// The flat operations of one instruction placed at `pos`.
pub open spec fn flat_instr(i: Ir, pos: int) -> Seq<Op>
    decreases i, 0nat,
{
    match i {
        Ir::Move(d) => seq![Op::Move(d as isize)],
        Ir::Add(b) => seq![Op::Add(b)],
        Ir::Write => seq![Op::Write],
        Ir::Read => seq![Op::Read],
        Ir::Loop(body) => {
            let b = flat_seq(body, pos + 1);
            seq![Op::Enter((pos + b.len() + 2) as usize)] + b + seq![Op::Repeat((pos + 1) as usize)]
        },
        Ir::Clear => seq![Op::Clear],
        Ir::AddTo(o) => seq![Op::AddTo(o as isize)],
    }
}

/// The flat operations of a sequence placed at `pos`.
pub open spec fn flat_seq(s: Seq<Ir>, pos: int) -> Seq<Op>
    decreases s, s.len(),
{
    if s.len() == 0 {
        Seq::empty()
    } else {
        let pre = flat_seq(s.drop_last(), pos);
        pre + flat_instr(s.last(), pos + pre.len())
    }
}

/// The cell index `d` places away from `p` on the ring.
pub open spec fn ring_move(p: int, d: int) -> int {
    (p + d) % (MEMORY_SIZE as int)
}

/// A cell value after adding `n`, wrapping at 256.
pub open spec fn bump(c: u8, n: int) -> u8 {
    ((c + n) % 256) as u8
}

/// The state of the machine: tape, data pointer, program and position in it.
pub struct State {
    pub tape: Seq<u8>,
    pub ptr: int,
    pub program: Seq<Op>,
    pub pc: int,
}

/// The state after one step from `s`, and what the caller has to do.
pub open spec fn next(s: State) -> (State, Action) {
    if s.pc < 0 || s.pc >= s.program.len() {
        (s, Action::Halt)
    } else {
        let c = s.tape[s.ptr];
        let adv = State { pc: s.pc + 1, ..s };
        match s.program[s.pc] {
            Op::Move(d) => (State { ptr: ring_move(s.ptr, d as int), ..adv }, Action::Continue),
            Op::Add(b) => (State { tape: s.tape.update(s.ptr, bump(c, b as int)), ..adv }, Action::Continue),
            Op::Write => (adv, Action::Output(c)),
            Op::Read => (adv, Action::Input),
            Op::Clear => (State { tape: s.tape.update(s.ptr, 0), ..adv }, Action::Continue),
            Op::AddTo(o) => {
                let t = ring_move(s.ptr, o as int);
                let moved = s.tape.update(t, bump(s.tape[t], c as int));
                (State { tape: moved.update(s.ptr, 0), ..adv }, Action::Continue)
            },
            Op::Enter(t) => if c == 0 {
                (State { pc: t as int, ..s }, Action::Continue)
            } else {
                (adv, Action::Continue)
            },
            Op::Repeat(t) => if c != 0 {
                (State { pc: t as int, ..s }, Action::Continue)
            } else {
                (adv, Action::Continue)
            },
        }
    }
}

/// `flat_seq` of a longer prefix extends that of a shorter one.
proof fn lemma_flat_prefix_len(s: Seq<Ir>, k: int, pos: int)
    requires
        0 <= k <= s.len(),
    ensures
        flat_seq(s.take(k), pos).len() <= flat_seq(s, pos).len(),
    decreases s.len() - k,
{
    if k < s.len() {
        lemma_flat_prefix_len(s, k + 1, pos);
        assert(s.take(k + 1).drop_last() =~= s.take(k));
    } else {
        assert(s.take(k) =~= s);
    }
}

proof fn lemma_flat_instr_len(i: Ir, pos: int)
    ensures
        flat_instr(i, pos).len() == flat_size(i),
    decreases i, 0nat,
{
    if let Ir::Loop(body) = i {
        lemma_flat_seq_len(body, pos + 1);
    }
}

pub proof fn lemma_flat_seq_len(s: Seq<Ir>, pos: int)
    ensures
        flat_seq(s, pos).len() == flat_seq_size(s),
    decreases s, s.len(),
{
    if s.len() > 0 {
        lemma_flat_seq_len(s.drop_last(), pos);
        lemma_flat_instr_len(s.last(), pos + flat_seq(s.drop_last(), pos).len());
    }
}

/// `n`, or one past the limit when `n` exceeds it.
pub open spec fn flat_capped(n: int) -> int {
    if n > FLAT_LIMIT {
        FLAT_LIMIT + 1
    } else {
        n
    }
}

/// The number of flat operations `instrs` becomes, or one past the limit.
fn flat_count(instrs: &Vec<Instruction>) -> (r: usize)
    ensures
        r == flat_capped(flat_seq_size(models(instrs@)) as int),
    decreases instrs,
{
    let ghost s = models(instrs@);
    proof {
        lemma_models_len(instrs@);
        assert(s.take(0) =~= Seq::<Ir>::empty());
    }
    let mut total: usize = 0;
    let mut k: usize = 0;
    while k < instrs.len()
        invariant
            s == models(instrs@),
            s.len() == instrs@.len(),
            k <= instrs@.len(),
            total == flat_capped(flat_seq_size(s.take(k as int)) as int),
        decreases instrs@.len() - k,
    {
        proof {
            lemma_models_index(instrs@, k as int);
            assert(s.take(k + 1).drop_last() =~= s.take(k as int));
            assert(s.take(k + 1).last() == s[k as int]);
        }
        let size: usize = match &instrs[k] {
            Instruction::Loop(body) => {
                let inner = flat_count(body);
                if inner + 2 > FLAT_LIMIT {
                    FLAT_LIMIT + 1
                } else {
                    inner + 2
                }
            },
            _ => 1,
        };
        assert(size == flat_capped(flat_size(s[k as int]) as int));
        total = if total + size > FLAT_LIMIT {
            FLAT_LIMIT + 1
        } else {
            total + size
        };
        k = k + 1;
    }
    proof {
        assert(s.take(k as int) =~= s);
    }
    total
}

/// Append the flat operations of `instrs` placed at `ops.len()`.
fn flatten_into(ops: &mut Vec<Op>, instrs: &Vec<Instruction>)
    requires
        old(ops)@.len() + flat_seq(models(instrs@), old(ops)@.len() as int).len() <= FLAT_LIMIT,
    ensures
        final(ops)@ == old(ops)@ + flat_seq(models(instrs@), old(ops)@.len() as int),
    decreases instrs,
{
    let ghost pos0 = ops@.len() as int;
    let ghost s = models(instrs@);
    proof {
        lemma_models_len(instrs@);
        assert(s.take(0) =~= Seq::<Ir>::empty());
        assert(ops@ =~= old(ops)@ + flat_seq(s.take(0), pos0));
    }
    let mut k: usize = 0;
    while k < instrs.len()
        invariant
            s == models(instrs@),
            s.len() == instrs@.len(),
            pos0 == old(ops)@.len(),
            pos0 + flat_seq(s, pos0).len() <= FLAT_LIMIT,
            k <= instrs@.len(),
            ops@ == old(ops)@ + flat_seq(s.take(k as int), pos0),
        decreases instrs@.len() - k,
    {
        let ghost before = ops@;
        proof {
            lemma_flat_prefix_len(s, k as int, pos0);
            lemma_models_index(instrs@, k as int);
            assert(s.take(k + 1).drop_last() =~= s.take(k as int));
            assert(s.take(k + 1).last() == s[k as int]);
            lemma_flat_prefix_len(s, k + 1, pos0);
        }
        let pos: usize = ops.len();
        proof {
            assert(flat_seq(s.take(k + 1), pos0) == flat_seq(s.take(k as int), pos0) + flat_instr(s[k as int], pos as int));
        }
        match &instrs[k] {
            Instruction::Move(d) => ops.push(Op::Move(*d)),
            Instruction::Add(b) => ops.push(Op::Add(*b)),
            Instruction::Write => ops.push(Op::Write),
            Instruction::Read => ops.push(Op::Read),
            Instruction::Loop(body) => {
                let ghost bs = flat_seq(models(body@), pos + 1);
                proof {
                    assert(flat_instr(s[k as int], pos as int) == seq![Op::Enter((pos + bs.len() + 2) as usize)] + bs
                        + seq![Op::Repeat((pos + 1) as usize)]);
                }
                ops.push(Op::Enter(0));
                flatten_into(ops, body);
                let end: usize = ops.len();
                ops.set(pos, Op::Enter(end + 1));
                ops.push(Op::Repeat(pos + 1));
                proof {
                    assert(ops@ =~= before + flat_instr(s[k as int], pos as int));
                }
            },
            Instruction::Clear => ops.push(Op::Clear),
            Instruction::AddTo { offset } => ops.push(Op::AddTo(*offset)),
        }
        proof {
            assert(ops@ =~= old(ops)@ + flat_seq(s.take(k + 1), pos0));
        }
        k = k + 1;
    }
    proof {
        assert(s.take(k as int) =~= s);
    }
}

/// The flat program of `p`, placed at position zero.
pub open spec fn flat_program(p: Seq<Ir>) -> Seq<Op> {
    flat_seq(p, 0)
}

/// `s` with the flat program of `p` loaded at its start.
pub open spec fn with_program(s: State, p: Seq<Ir>) -> State {
    State { program: flat_program(p), pc: 0, ..s }
}

/// `s` with the current cell replaced by `b`.
pub open spec fn with_cell(s: State, b: u8) -> State {
    State { tape: s.tape.update(s.ptr, b), ..s }
}

/// A state whose tape has every cell and whose pointer is on it.
pub open spec fn valid(s: State) -> bool {
    &&& s.tape.len() == MEMORY_SIZE
    &&& 0 <= s.ptr < MEMORY_SIZE
    &&& 0 <= s.pc
}

/// A tape of zeros with the pointer on its first cell.
pub open spec fn fresh_tape() -> Seq<u8> {
    Seq::new(MEMORY_SIZE as nat, |i: int| 0u8)
}

/// The interpreter: a circular tape of bytes, a data pointer, and the
/// flattened program being run with its position.
///
/// The tape and pointer persist across loaded programs.
pub struct Executor {
    memory: Vec<u8>,
    index: usize,
    program: Vec<Op>,
    pc: usize,
}

impl View for Executor {
    type V = State;

    closed spec fn view(&self) -> State {
        State { tape: self.memory@, ptr: self.index as int, program: self.program@, pc: self.pc as int }
    }
}

impl Executor {
    /// An executor with a zeroed tape, the pointer on the first cell, and no
    /// program.
    pub fn new() -> (r: Executor)
        ensures
            valid(r@),
            r@.tape == fresh_tape(),
            r@.ptr == 0,
            r@.program == Seq::<Op>::empty(),
            r@.pc == 0,
    {
        let mut memory: Vec<u8> = Vec::new();
        let mut k: usize = 0;
        while k < MEMORY_SIZE
            invariant
                k <= MEMORY_SIZE,
                memory@ == Seq::new(k as nat, |i: int| 0u8),
            decreases MEMORY_SIZE - k,
        {
            memory.push(0);
            proof {
                assert(memory@ =~= Seq::new((k + 1) as nat, |i: int| 0u8));
            }
            k = k + 1;
        }
        let r = Executor { memory, index: 0, program: Vec::new(), pc: 0 };
        proof {
            assert(r@.tape =~= fresh_tape());
        }
        r
    }

    /// Parse `code` and make it the program to run from its start, on the
    /// current tape and pointer.
    pub fn load(&mut self, code: &str) -> (r: Result<(), Error>)
        requires
            code.spec_bytes().len() < isize::MAX,
        ensures
            match parse_spec(code.spec_bytes()) {
                Err(e) => r is Err && r->Err_0 == Error::ParseError(e) && final(self)@ == old(self)@,
                Ok(p) => if flat_seq_size(p) > FLAT_LIMIT {
                    r is Err && r->Err_0 == Error::CompileError(CompileFailure::TooLarge) && final(self)@ == old(self)@
                } else {
                    r is Ok && final(self)@ == with_program(old(self)@, p)
                },
            },
    {
        let instrs = match parse(code) {
            Ok(instrs) => instrs,
            Err(e) => return Err(Error::ParseError(e)),
        };
        let count = flat_count(&instrs);
        if count > FLAT_LIMIT {
            return Err(Error::CompileError(CompileFailure::TooLarge));
        }
        let mut ops: Vec<Op> = Vec::new();
        proof {
            lemma_flat_seq_len(models(instrs@), 0);
        }
        flatten_into(&mut ops, &instrs);
        proof {
            assert(ops@ =~= flat_program(models(instrs@)));
        }
        self.program = ops;
        self.pc = 0;
        Ok(())
    }

    /// Perform one operation of the loaded program.
    pub fn step(&mut self) -> (a: Action)
        requires
            valid(old(self)@),
        ensures
            (final(self)@, a) == next(old(self)@),
            valid(final(self)@),
    {
        if self.pc >= self.program.len() {
            return Action::Halt;
        }
        let c = self.memory[self.index];
        let op = self.program[self.pc];
        match op {
            Op::Move(d) => {
                self.index = advance(self.index, d);
                self.pc = self.pc + 1;
                Action::Continue
            },
            Op::Add(b) => {
                self.memory.set(self.index, c.wrapping_add(b));
                self.pc = self.pc + 1;
                Action::Continue
            },
            Op::Write => {
                self.pc = self.pc + 1;
                Action::Output(c)
            },
            Op::Read => {
                self.pc = self.pc + 1;
                Action::Input
            },
            Op::Clear => {
                self.memory.set(self.index, 0);
                self.pc = self.pc + 1;
                Action::Continue
            },
            Op::AddTo(o) => {
                let t = advance(self.index, o);
                let v = self.memory[t];
                self.memory.set(t, v.wrapping_add(c));
                self.memory.set(self.index, 0);
                self.pc = self.pc + 1;
                Action::Continue
            },
            Op::Enter(t) => {
                if c == 0 {
                    self.pc = t;
                } else {
                    self.pc = self.pc + 1;
                }
                Action::Continue
            },
            Op::Repeat(t) => {
                if c != 0 {
                    self.pc = t;
                } else {
                    self.pc = self.pc + 1;
                }
                Action::Continue
            },
        }
    }

    /// Store a byte read for the program in the current cell.
    pub fn supply(&mut self, byte: u8)
        requires
            valid(old(self)@),
        ensures
            final(self)@ == with_cell(old(self)@, byte),
            valid(final(self)@),
    {
        self.memory.set(self.index, byte);
    }

    /// The value of the current cell.
    pub fn current(&self) -> (r: u8)
        requires
            valid(self@),
        ensures
            r == self@.tape[self@.ptr],
    {
        self.memory[self.index]
    }
}

impl Default for Executor {
    /// Same as [`Executor::new`].
    fn default() -> (r: Executor)
        ensures
            valid(r@),
            r@.tape == fresh_tape(),
            r@.ptr == 0,
            r@.program == Seq::<Op>::empty(),
            r@.pc == 0,
    {
        Executor::new()
    }
}

/// The cell index `d` places away from `p`.
fn advance(p: usize, d: isize) -> (r: usize)
    requires
        p < MEMORY_SIZE,
    ensures
        r == ring_move(p as int, d as int),
        r < MEMORY_SIZE,
{
    let step = ring_step_of(d) as usize;
    proof {
        vstd::arithmetic::div_mod::lemma_add_mod_noop(p as int, d as int, MEMORY_SIZE as int);
        vstd::arithmetic::div_mod::lemma_small_mod(p as nat, MEMORY_SIZE as nat);
    }
    let sum = p + step;
    if sum >= MEMORY_SIZE {
        sum - MEMORY_SIZE
    } else {
        sum
    }
}

} // verus!
