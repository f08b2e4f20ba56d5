use vstd::prelude::*;

verus! {

/// One instruction of the language.
#[derive(Clone, Copy, Debug, PartialEq, Eq, Structural)]
pub enum Command {
    /// `>`: move the data pointer one cell to the right.
    MoveRight,
    /// `<`: move the data pointer one cell to the left.
    MoveLeft,
    /// `+`: add one to the current cell, modulo 256.
    Increment,
    /// `-`: subtract one from the current cell, modulo 256.
    Decrement,
    /// `.`: emit the current cell as one output byte.
    Output,
    /// `,`: read one input byte into the current cell.
    Input,
    /// `[`: skip past the matching `]` when the current cell is zero.
    JumpIfZero,
    /// `]`: go back to just after the matching `[` when the current cell is not zero.
    JumpIfNonZero,
}

/// The instruction that a byte of program text stands for, if any.
pub open spec fn command_of(b: u8) -> Option<Command> {
    if b == 0x3e {  // '>'
        Some(Command::MoveRight)
    } else if b == 0x3c {  // '<'
        Some(Command::MoveLeft)
    } else if b == 0x2b {  // '+'
        Some(Command::Increment)
    } else if b == 0x2d {  // '-'
        Some(Command::Decrement)
    } else if b == 0x2e {  // '.'
        Some(Command::Output)
    } else if b == 0x2c {  // ','
        Some(Command::Input)
    } else if b == 0x5b {  // '['
        Some(Command::JumpIfZero)
    } else if b == 0x5d {  // ']'
        Some(Command::JumpIfNonZero)
    } else {
        None
    }
}

/// The program that a text stands for: the instructions of its bytes, in
/// order, with every other byte dropped.
pub open spec fn parse_bytes(text: Seq<u8>) -> Seq<Command>
    decreases text.len(),
{
    if text.len() == 0 {
        Seq::empty()
    } else {
        let rest = parse_bytes(text.drop_last());
        match command_of(text.last()) {
            Some(c) => rest.push(c),
            None => rest,
        }
    }
}

/// Classifies one byte of program text.
pub fn parse(b: u8) -> (r: Option<Command>)
    ensures
        r == command_of(b),
{
    match b {
        0x3e => Some(Command::MoveRight),
        0x3c => Some(Command::MoveLeft),
        0x2b => Some(Command::Increment),
        0x2d => Some(Command::Decrement),
        0x2e => Some(Command::Output),
        0x2c => Some(Command::Input),
        0x5b => Some(Command::JumpIfZero),
        0x5d => Some(Command::JumpIfNonZero),
        _ => None,
    }
}

/// Reduces a program text to its instructions.
pub fn parse_program(text: &[u8]) -> (r: Vec<Command>)
    ensures
        r@ == parse_bytes(text@),
{
    let mut program: Vec<Command> = Vec::new();
    let mut i: usize = 0;
    while i < text.len()
        invariant
            i <= text@.len(),
            program@ == parse_bytes(text@.take(i as int)),
        decreases text@.len() - i,
    {
        assert(text@.take(i as int + 1).drop_last() == text@.take(i as int));
        if let Some(c) = parse(text[i]) {
            program.push(c);
        }
        i += 1;
    }
    assert(text@.take(i as int) == text@);
    program
}

} // verus!
