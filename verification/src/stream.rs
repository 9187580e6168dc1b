//! The decisions of a pass over a stream. Reading and writing are the
//! caller's: it hands in what a read returned and what a write reported, and
//! is told what to write and whether to go on.

use crate::model::{emitted, flushed, run_after, run_fits};
use crate::scan::process_input;
use crate::transducer::Transducer;
use vstd::prelude::*;

verus! {

/// What a pass does once a read has been handled.
#[derive(Debug, Clone, Copy, PartialEq, Eq, Structural)]
pub enum Next {
    /// The stream goes on: read again.
    Read,
    /// The stream has ended: nothing is left to read.
    Stop,
}

/// A write that took fewer bytes than it was given.
#[derive(Debug, Clone, Copy, PartialEq, Eq, Structural)]
pub struct ShortWrite {
    /// The number of bytes handed to the sink.
    pub requested: usize,
    /// The number of bytes that the sink reported as written.
    pub written: usize,
}

/// Handles what one read returned. A read of no bytes is the end of the
/// stream: the backslash that an open run holds back is released, and the
/// pass stops. Any other read is the next chunk of the stream: what it makes
/// final is appended to `writer`, and the pass reads again.
///
/// The run counter must be able to follow the chunk.
pub fn on_read(state: &mut Transducer, chunk: &[u8], writer: &mut Vec<u8>) -> (next: Next)
    requires
        run_fits(old(state)@, chunk@),
    ensures
        chunk@.len() == 0 ==> next == Next::Stop && final(state)@ == 0 && final(writer)@ == old(
            writer,
        )@ + flushed(old(state)@),
        chunk@.len() > 0 ==> next == Next::Read && final(state)@ == run_after(old(state)@, chunk@)
            && final(writer)@ == old(writer)@ + emitted(old(state)@, chunk@),
{
    if chunk.len() == 0 {
        state.finish(writer);
        Next::Stop
    } else {
        process_input(state, chunk, writer);
        Next::Read
    }
}

/// Judges what a write reported: a write that took fewer bytes than it was
/// given is a failure, since every byte handed over has to reach the sink.
pub fn on_write(requested: usize, written: usize) -> (outcome: Result<(), ShortWrite>)
    ensures
        written < requested ==> outcome == Err::<(), ShortWrite>(
            (ShortWrite { requested, written }),
        ),
        written >= requested ==> outcome == Ok::<(), ShortWrite>(()),
{
    if written < requested {
        Err(ShortWrite { requested, written })
    } else {
        Ok(())
    }
}

} // verus!
