//! Instructions, their mathematical model and their canonical text.

use crate::natural::{big_to_string, big_value, decimal};
use num_bigint::BigUint;
use vstd::prelude::*;
use vstd::string::StringExecFns;

verus! {

/// What an instruction means: the model that contracts speak of. Line numbers
/// are the one-based numbers of the program text.
pub enum Op {
    /// Load the number into the register.
    Load(nat),
    /// Create one thread at the line.
    Spawn(nat),
    /// Create as many threads at the line as the register says.
    SpawnMulti(nat),
    /// Remove every other thread whose register holds the number.
    Kill(nat),
    /// Continue at the start of the line.
    Jump(nat),
    /// Take the next input value into the register.
    Read,
    /// Emit the register.
    Write,
    /// End this thread.
    Halt,
    /// Do nothing for one turn.
    Sleep,
    /// Add the register to every other thread's register.
    GlobalAdd,
    /// Subtract the register from every other thread's register, stopping at
    /// zero.
    GlobalSubtract,
}

/// One instruction of a program.
#[derive(Clone, Debug, PartialEq, Eq)]
pub enum Instruction {
    /// `=n`: load `n` into the register.
    Load(BigUint),
    /// `+l`: create one thread at line `l`.
    Spawn(BigUint),
    /// `*l`: create as many threads at line `l` as the register says.
    SpawnMulti(BigUint),
    /// `-n`: remove every other thread whose register holds `n`, and count
    /// them.
    Kill(BigUint),
    /// `:l`: continue at the start of line `l`.
    Jump(BigUint),
    /// `r`: take the next input value into the register.
    Read,
    /// `w`: emit the register.
    Write,
    /// `!`: end this thread.
    Halt,
    /// `.`: do nothing for one turn.
    Sleep,
    /// `$`: add the register to every other thread's register.
    GlobalAdd,
    /// `~`: subtract the register from every other thread's register,
    /// stopping at zero.
    GlobalSubtract,
}

/// A parsed program: its lines in order, each with its instructions in order.
/// A blank or comment-only line is an empty list that still counts as a line.
pub type Code = Vec<Vec<Instruction>>;

impl View for Instruction {
    type V = Op;

    open spec fn view(&self) -> Op {
        match *self {
            Instruction::Load(n) => Op::Load(big_value(n)),
            Instruction::Spawn(n) => Op::Spawn(big_value(n)),
            Instruction::SpawnMulti(n) => Op::SpawnMulti(big_value(n)),
            Instruction::Kill(n) => Op::Kill(big_value(n)),
            Instruction::Jump(n) => Op::Jump(big_value(n)),
            Instruction::Read => Op::Read,
            Instruction::Write => Op::Write,
            Instruction::Halt => Op::Halt,
            Instruction::Sleep => Op::Sleep,
            Instruction::GlobalAdd => Op::GlobalAdd,
            Instruction::GlobalSubtract => Op::GlobalSubtract,
        }
    }
}

impl DeepView for Instruction {
    type V = Op;

    open spec fn deep_view(&self) -> Op {
        self@
    }
}

/// The canonical text of an instruction: its sigil, then its number in
/// decimal where it has one.
pub open spec fn render(op: Op) -> Seq<char> {
    match op {
        Op::Load(n) => seq!['='] + decimal(n),
        Op::Spawn(n) => seq!['+'] + decimal(n),
        Op::SpawnMulti(n) => seq!['*'] + decimal(n),
        Op::Kill(n) => seq!['-'] + decimal(n),
        Op::Jump(n) => seq![':'] + decimal(n),
        Op::Read => seq!['r'],
        Op::Write => seq!['w'],
        Op::Halt => seq!['!'],
        Op::Sleep => seq!['.'],
        Op::GlobalAdd => seq!['$'],
        Op::GlobalSubtract => seq!['~'],
    }
}

/// The text of a sigil followed by a number in decimal.
fn sigil_text(sigil: char, n: &BigUint) -> (r: String)
    ensures
        r@ == seq![sigil] + decimal(big_value(*n)),
{
    let mut s = String::new();
    s.push(sigil);
    let digits = big_to_string(n);
    s.append(digits.as_str());
    s
}

/// The text of a lone character.
fn char_text(c: char) -> (r: String)
    ensures
        r@ == seq![c],
{
    let mut s = String::new();
    s.push(c);
    s
}

impl Instruction {
    /// The canonical text of the instruction.
    pub fn to_text(&self) -> (r: String)
        ensures
            r@ == render(self@),
    {
        match self {
            Instruction::Load(n) => sigil_text('=', n),
            Instruction::Spawn(n) => sigil_text('+', n),
            Instruction::SpawnMulti(n) => sigil_text('*', n),
            Instruction::Kill(n) => sigil_text('-', n),
            Instruction::Jump(n) => sigil_text(':', n),
            Instruction::Read => char_text('r'),
            Instruction::Write => char_text('w'),
            Instruction::Halt => char_text('!'),
            Instruction::Sleep => char_text('.'),
            Instruction::GlobalAdd => char_text('$'),
            Instruction::GlobalSubtract => char_text('~'),
        }
    }
}

} // verus!
