//! The transducer's state and its transitions, one byte at a time.

use crate::model::{flushed, next_run, step_output, BACKSLASH, NUL, ZERO_DIGIT};
use vstd::prelude::*;

verus! {

/// Appends one byte to the sink and reports how many bytes went out: one.
pub fn write_byte(byte: u8, writer: &mut Vec<u8>) -> (written: usize)
    ensures
        final(writer)@ == old(writer)@.push(byte),
        written == 1,
{
    writer.push(byte);
    1
}

/// The state that is carried through a stream, from one byte to the next and
/// from one chunk to the next: the length of the run of backslashes that is
/// still open. With a run of zero the transducer copies; with a longer one it
/// holds the last backslash of the run back.
#[derive(Debug)]
pub struct Transducer {
    run: u64,
}

impl View for Transducer {
    type V = nat;

    /// The length of the open run.
    closed spec fn view(&self) -> nat {
        self.run as nat
    }
}

impl Transducer {
    /// The state at the start of a stream: no run is open.
    pub fn new() -> (fresh: Self)
        ensures
            fresh@ == 0,
    {
        Transducer { run: 0 }
    }

    /// The length of the open run.
    pub fn run(&self) -> (run: u64)
        ensures
            run == self@,
    {
        self.run
    }

    /// Takes one byte: writes what it makes final and moves to the next state.
    ///
    /// A backslash needs room in the counter for one more.
    pub fn step(&mut self, byte: u8, writer: &mut Vec<u8>)
        requires
            byte == BACKSLASH ==> old(self)@ < u64::MAX,
        ensures
            final(self)@ == next_run(old(self)@, byte),
            final(writer)@ == old(writer)@ + step_output(old(self)@, byte),
    {
        if byte == BACKSLASH {
            if self.run > 0 {
                write_byte(BACKSLASH, writer);
            }
            self.run = self.run + 1;
        } else {
            if self.run == 0 {
                write_byte(byte, writer);
            } else if byte == ZERO_DIGIT && self.run % 2 == 1 {
                write_byte(NUL, writer);
            } else {
                write_byte(BACKSLASH, writer);
                write_byte(byte, writer);
            }
            self.run = 0;
        }
        assert(writer@ =~= old(writer)@ + step_output(old(self)@, byte));
    }

    /// Ends the stream: releases the backslash that an open run holds back, and
    /// returns to the state of a fresh transducer.
    pub fn finish(&mut self, writer: &mut Vec<u8>)
        ensures
            final(self)@ == 0,
            final(writer)@ == old(writer)@ + flushed(old(self)@),
    {
        if self.run > 0 {
            write_byte(BACKSLASH, writer);
        }
        self.run = 0;
        assert(writer@ =~= old(writer)@ + flushed(old(self)@));
    }
}

} // verus!
