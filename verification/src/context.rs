use vstd::prelude::*;
use crate::tape::{Tape, cell_value};

verus! {

/// The aggregate state of one run: the tape, the bytes written so far,
/// and a cursor into an externally supplied input byte sequence. A
/// context is made fresh for a run, mutated only by the executor, and
/// handed back when the run stops.
#[derive(Debug, PartialEq)]
pub struct Context {
    pub tape: Tape,
    pub output: Vec<u8>,
    pub input: Vec<u8>,
    pub cursor: usize,
}

impl Context {
    /// A fresh context: empty tape, no output, no input.
    pub fn new() -> (r: Self)
        ensures
            r.tape.map@ == Map::<i64, u8>::empty(),
            r.tape.head == 0,
            r.output@ == Seq::<u8>::empty(),
            r.input@ == Seq::<u8>::empty(),
            r.cursor == 0,
    {
        Context { tape: Tape::new(), output: Vec::new(), input: Vec::new(), cursor: 0 }
    }

    /// A fresh context whose input bytes will be consumed, in order,
    /// by the machine's input instruction.
    pub fn with_input(input: Vec<u8>) -> (r: Self)
        ensures
            r.tape.map@ == Map::<i64, u8>::empty(),
            r.tape.head == 0,
            r.output@ == Seq::<u8>::empty(),
            r.input@ == input@,
            r.cursor == 0,
    {
        Context { tape: Tape::new(), output: Vec::new(), input, cursor: 0 }
    }

    /// Append the value of the cell under the head to the output.
    pub fn output(&mut self)
        ensures
            final(self).output@ == old(self).output@.push(
                cell_value(old(self).tape.map@, old(self).tape.head),
            ),
            final(self).tape == old(self).tape,
            final(self).input@ == old(self).input@,
            final(self).cursor == old(self).cursor,
    {
        let v = self.tape.read();
        self.output.push(v);
    }

    /// Consume one input byte into the cell under the head: if a byte
    /// remains it is written and the cursor advances; at the end of the
    /// input a 0 is written and the cursor stays.
    pub fn read_input(&mut self)
        ensures
            old(self).cursor < old(self).input@.len() ==> {
                &&& final(self).tape.map@ == old(self).tape.map@.insert(
                    old(self).tape.head,
                    old(self).input@[old(self).cursor as int],
                )
                &&& final(self).cursor == old(self).cursor + 1
            },
            old(self).cursor >= old(self).input@.len() ==> {
                &&& final(self).tape.map@ == old(self).tape.map@.insert(old(self).tape.head, 0)
                &&& final(self).cursor == old(self).cursor
            },
            final(self).tape.head == old(self).tape.head,
            final(self).output@ == old(self).output@,
            final(self).input@ == old(self).input@,
    {
        if self.cursor < self.input.len() {
            let b = self.input[self.cursor];
            self.tape.write(b);
            self.cursor = self.cursor + 1;
        } else {
            self.tape.write(0);
        }
    }
}

} // verus!
