//! The intermediate representation shared by the interpreter and the code
//! generator, together with its mathematical model.

use vstd::prelude::*;

verus! {

/// One operation of a parsed program.
#[derive(Debug, PartialEq, Eq)]
pub enum Instruction {
    /// Move the data pointer by the given (possibly negative) distance.
    Move(isize),
    /// Add the given amount to the current cell, wrapping at 256.
    Add(u8),
    /// Emit the current cell on the output stream.
    Write,
    /// Replace the current cell with one byte of the input stream.
    Read,
    /// Run the body while the current cell is non-zero.
    Loop(Vec<Instruction>),
    /// Set the current cell to zero.
    Clear,
    /// Add the current cell to the cell `offset` places away, then clear it.
    AddTo { offset: isize },
}

/// The mathematical model of an [`Instruction`]: distances are unbounded
/// integers and loop bodies are sequences.
pub enum Ir {
    /// Move the data pointer by this distance.
    Move(int),
    /// Add this amount to the current cell, modulo 256.
    Add(u8),
    /// Emit the current cell.
    Write,
    /// Replace the current cell with an input byte.
    Read,
    /// Run the body while the current cell is non-zero.
    Loop(Seq<Ir>),
    /// Set the current cell to zero.
    Clear,
    /// Add the current cell to the cell this far away, then clear it.
    AddTo(int),
}

impl Instruction {
    /// The model of this instruction.
    pub open spec fn model(self) -> Ir
        decreases self,
    {
        match self {
            Instruction::Move(n) => Ir::Move(n as int),
            Instruction::Add(b) => Ir::Add(b),
            Instruction::Write => Ir::Write,
            Instruction::Read => Ir::Read,
            Instruction::Loop(body) => Ir::Loop(models(body@)),
            Instruction::Clear => Ir::Clear,
            Instruction::AddTo { offset } => Ir::AddTo(offset as int),
        }
    }
}

/// The model of a sequence of instructions, element by element.
pub open spec fn models(s: Seq<Instruction>) -> Seq<Ir>
    decreases s,
{
    if s.len() == 0 {
        Seq::empty()
    } else {
        models(s.drop_last()).push(s.last().model())
    }
}

} // verus!
