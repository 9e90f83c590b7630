use vstd::prelude::*;
use vstd::string::StrSliceExecFns;

verus! {

/// One operation of the tape machine. `Ignore` keeps any character
/// outside the eight recognized symbols, for diagnostics; it does
/// nothing when executed and is never dropped from the program.
#[derive(Debug, Clone, Copy, PartialEq, Eq)]
pub enum Instruction {
    MoveToRight,
    MoveToLeft,
    Increment,
    Decrement,
    Output,
    Input,
    LoopBegin,
    LoopEnd,
    Ignore(char),
}

/// The fixed mapping from a source character to its instruction.
pub open spec fn char_to_instruction(ch: char) -> Instruction {
    if ch == '>' {
        Instruction::MoveToRight
    } else if ch == '<' {
        Instruction::MoveToLeft
    } else if ch == '+' {
        Instruction::Increment
    } else if ch == '-' {
        Instruction::Decrement
    } else if ch == '.' {
        Instruction::Output
    } else if ch == ',' {
        Instruction::Input
    } else if ch == '[' {
        Instruction::LoopBegin
    } else if ch == ']' {
        Instruction::LoopEnd
    } else {
        Instruction::Ignore(ch)
    }
}

/// What parsing a source text yields: one instruction per character,
/// in order, by the fixed character mapping. Parsing is total.
pub open spec fn parse_spec(s: Seq<char>) -> Seq<Instruction> {
    Seq::new(s.len(), |i: int| char_to_instruction(s[i]))
}

impl vstd::std_specs::convert::FromSpecImpl<char> for Instruction {
    open spec fn obeys_from_spec() -> bool {
        true
    }

    open spec fn from_spec(ch: char) -> Instruction {
        char_to_instruction(ch)
    }
}

impl From<char> for Instruction {
    fn from(ch: char) -> (r: Self) {
        match ch {
            '>' => Instruction::MoveToRight,
            '<' => Instruction::MoveToLeft,
            '+' => Instruction::Increment,
            '-' => Instruction::Decrement,
            '.' => Instruction::Output,
            ',' => Instruction::Input,
            '[' => Instruction::LoopBegin,
            ']' => Instruction::LoopEnd,
            _ => Instruction::Ignore(ch),
        }
    }
}

impl Instruction {
    /// Turn a source text into its instruction sequence, one
    /// instruction per character; characters outside the eight symbols
    /// become `Ignore`. Never fails, never skips a character.
    pub fn parse(inst: &str) -> (r: Vec<Instruction>)
        ensures
            r@ == parse_spec(inst@),
    {
        let n = inst.unicode_len();
        let mut out: Vec<Instruction> = Vec::new();
        let mut i: usize = 0;
        while i < n
            invariant
                n == inst@.len(),
                i <= n,
                out@.len() == i,
                forall|j: int| 0 <= j < i ==> out@[j] == char_to_instruction(inst@[j]),
            decreases n - i,
        {
            let c = inst.get_char(i);
            out.push(Instruction::from(c));
            i += 1;
        }
        proof {
            assert(out@ =~= parse_spec(inst@));
        }
        out
    }
}

/// Law: parsing keeps the length — the instruction sequence has exactly
/// one instruction per input character.
pub proof fn lemma_parse_preserves_length(s: Seq<char>)
    ensures
        parse_spec(s).len() == s.len(),
{
}

} // verus!
