//! The instruction set and its encoding into machine words.

use vstd::prelude::*;

verus! {

/// One decoded instruction. `Add` and `Sub` carry the operand as written;
/// the others carry a memory address.
#[derive(Clone, Copy, Debug, PartialEq, Eq, Structural)]
pub enum Instruction {
    Add(i32),
    Branch(u8),
    BranchIfPositive(u8),
    BranchIfZero(u8),
    Halt,
    Input,
    Load(u8),
    Output,
    Store(u8),
    Sub(i32),
}

/// The ten mnemonics of the source language.
#[derive(Clone, Copy, Debug, PartialEq, Eq, Structural)]
pub enum Mnemonic {
    Add,
    Sub,
    Sta,
    Lda,
    Bra,
    Brz,
    Brp,
    Inp,
    Out,
    Hlt,
}

/// `t` is the three characters `a`, `b`, `c`.
pub open spec fn is_word3(t: Seq<char>, a: char, b: char, c: char) -> bool {
    t.len() == 3 && t[0] == a && t[1] == b && t[2] == c
}

/// The mnemonic that `t` spells, if any (case-sensitive).
pub open spec fn mnemonic_of(t: Seq<char>) -> Option<Mnemonic> {
    if is_word3(t, 'A', 'D', 'D') {
        Some(Mnemonic::Add)
    } else if is_word3(t, 'S', 'U', 'B') {
        Some(Mnemonic::Sub)
    } else if is_word3(t, 'S', 'T', 'A') {
        Some(Mnemonic::Sta)
    } else if is_word3(t, 'L', 'D', 'A') {
        Some(Mnemonic::Lda)
    } else if is_word3(t, 'B', 'R', 'A') {
        Some(Mnemonic::Bra)
    } else if is_word3(t, 'B', 'R', 'Z') {
        Some(Mnemonic::Brz)
    } else if is_word3(t, 'B', 'R', 'P') {
        Some(Mnemonic::Brp)
    } else if is_word3(t, 'I', 'N', 'P') {
        Some(Mnemonic::Inp)
    } else if is_word3(t, 'O', 'U', 'T') {
        Some(Mnemonic::Out)
    } else if is_word3(t, 'H', 'L', 'T') {
        Some(Mnemonic::Hlt)
    } else {
        None
    }
}

/// `t` is the data directive `DAT`.
pub open spec fn is_dat(t: Seq<char>) -> bool {
    is_word3(t, 'D', 'A', 'T')
}

fn word3(t: &Vec<char>, a: char, b: char, c: char) -> (r: bool)
    ensures
        r == is_word3(t@, a, b, c),
{
    t.len() == 3 && t[0] == a && t[1] == b && t[2] == c
}

/// Looks `t` up among the mnemonics.
pub fn lookup_mnemonic(t: &Vec<char>) -> (r: Option<Mnemonic>)
    ensures
        r == mnemonic_of(t@),
{
    if word3(t, 'A', 'D', 'D') {
        Some(Mnemonic::Add)
    } else if word3(t, 'S', 'U', 'B') {
        Some(Mnemonic::Sub)
    } else if word3(t, 'S', 'T', 'A') {
        Some(Mnemonic::Sta)
    } else if word3(t, 'L', 'D', 'A') {
        Some(Mnemonic::Lda)
    } else if word3(t, 'B', 'R', 'A') {
        Some(Mnemonic::Bra)
    } else if word3(t, 'B', 'R', 'Z') {
        Some(Mnemonic::Brz)
    } else if word3(t, 'B', 'R', 'P') {
        Some(Mnemonic::Brp)
    } else if word3(t, 'I', 'N', 'P') {
        Some(Mnemonic::Inp)
    } else if word3(t, 'O', 'U', 'T') {
        Some(Mnemonic::Out)
    } else if word3(t, 'H', 'L', 'T') {
        Some(Mnemonic::Hlt)
    } else {
        None
    }
}

/// Tells whether `t` is the data directive `DAT`.
pub fn is_dat_word(t: &Vec<char>) -> (r: bool)
    ensures
        r == is_dat(t@),
{
    word3(t, 'D', 'A', 'T')
}

/// The machine word of an instruction: opcode times one hundred plus the
/// operand, with 901 for input, 902 for output and 0 for halt. The signed
/// operands of `Add` and `Sub` have no bound; their sum wraps at 32 bits.
pub open spec fn word_of(i: Instruction) -> i32 {
    match i {
        Instruction::Add(v) => v.wrapping_add(100),
        Instruction::Sub(v) => v.wrapping_add(200),
        Instruction::Store(a) => (300 + a) as i32,
        Instruction::Load(a) => (500 + a) as i32,
        Instruction::Branch(a) => (600 + a) as i32,
        Instruction::BranchIfZero(a) => (700 + a) as i32,
        Instruction::BranchIfPositive(a) => (800 + a) as i32,
        Instruction::Halt => 0,
        Instruction::Input => 901,
        Instruction::Output => 902,
    }
}

impl Instruction {
    /// Encodes the instruction as a machine word.
    pub fn word(&self) -> (r: i32)
        ensures
            r == word_of(*self),
    {
        match *self {
            Instruction::Add(v) => v.wrapping_add(100),
            Instruction::Sub(v) => v.wrapping_add(200),
            Instruction::Store(a) => 300 + a as i32,
            Instruction::Load(a) => 500 + a as i32,
            Instruction::Branch(a) => 600 + a as i32,
            Instruction::BranchIfZero(a) => 700 + a as i32,
            Instruction::BranchIfPositive(a) => 800 + a as i32,
            Instruction::Halt => 0,
            Instruction::Input => 901,
            Instruction::Output => 902,
        }
    }
}

} // verus!
