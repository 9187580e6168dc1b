//! The rewrite as mathematics: a two-state machine over bytes, folded over a
//! sequence. The state is the number of backslashes of the run that is still
//! open; zero means that no run is open.

use vstd::prelude::*;

verus! {

/// The escape byte, `\`.
pub const BACKSLASH: u8 = 0x5c;

/// The digit `0`, the only byte that can close a run with a decision.
pub const ZERO_DIGIT: u8 = 0x30;

/// The byte that a collapsed pair becomes.
pub const NUL: u8 = 0x00;

/// The run length after `byte` has arrived behind an open run of `run`
/// backslashes: a backslash lengthens the run, any other byte ends it.
pub open spec fn next_run(run: nat, byte: u8) -> nat {
    if byte == BACKSLASH {
        run + 1
    } else {
        0
    }
}

/// The bytes that become final when `byte` arrives behind an open run of `run`
/// backslashes.
///
/// All backslashes of an open run but the last are final already; the last one
/// is held back until the next byte shows what becomes of it:
/// - another backslash releases it unchanged and is held back in its place;
/// - the digit `0` behind an odd run merges with it into one NUL;
/// - any other byte, and the digit `0` behind an even run, releases it
///   unchanged and follows it unchanged.
pub open spec fn step_output(run: nat, byte: u8) -> Seq<u8> {
    if byte == BACKSLASH {
        if run == 0 {
            Seq::empty()
        } else {
            seq![BACKSLASH]
        }
    } else if run == 0 {
        seq![byte]
    } else if byte == ZERO_DIGIT && run % 2 == 1 {
        seq![NUL]
    } else {
        seq![BACKSLASH, byte]
    }
}

/// The run length after all of `input` has arrived behind an open run of `run`
/// backslashes.
pub open spec fn run_after(run: nat, input: Seq<u8>) -> nat
    decreases input.len(),
{
    if input.len() == 0 {
        run
    } else {
        next_run(run_after(run, input.drop_last()), input.last())
    }
}

/// The bytes that become final while `input` arrives behind an open run of
/// `run` backslashes. The held-back backslash of a run that is still open at
/// the end of `input` is not among them.
pub open spec fn emitted(run: nat, input: Seq<u8>) -> Seq<u8>
    decreases input.len(),
{
    if input.len() == 0 {
        Seq::empty()
    } else {
        emitted(run, input.drop_last()) + step_output(
            run_after(run, input.drop_last()),
            input.last(),
        )
    }
}

/// Whether a 64-bit counter can follow `input` from an open run of `run`
/// backslashes: at no point of `input` is the open run longer than a `u64`
/// can hold.
pub open spec fn run_fits(run: nat, input: Seq<u8>) -> bool {
    forall|i: int| 0 <= i <= input.len() ==> #[trigger] run_after(run, input.take(i)) <= u64::MAX
}

/// The bytes that the end of the stream releases: the held-back backslash of
/// an open run, and nothing when no run is open.
pub open spec fn flushed(run: nat) -> Seq<u8> {
    if run > 0 {
        seq![BACKSLASH]
    } else {
        Seq::empty()
    }
}

/// The rewrite of a whole stream: what a fresh transducer emits for `input`,
/// followed by what the end of the stream releases.
pub open spec fn rewrite(input: Seq<u8>) -> Seq<u8> {
    emitted(0, input) + flushed(run_after(0, input))
}

/// A run of `n` backslashes.
pub open spec fn backslashes(n: nat) -> Seq<u8> {
    Seq::new(n, |i: int| BACKSLASH)
}

/// What a whole run of `n` backslashes and the digit `0` behind it become:
/// behind an odd run the last backslash and the digit collapse into one NUL,
/// behind an even run (or none) nothing changes.
pub open spec fn decided(n: nat) -> Seq<u8> {
    if n % 2 == 1 {
        backslashes((n - 1) as nat).push(NUL)
    } else {
        backslashes(n).push(ZERO_DIGIT)
    }
}

/// How many pairs collapse while `input` arrives behind an open run of `run`
/// backslashes.
pub open spec fn collapses(run: nat, input: Seq<u8>) -> nat
    decreases input.len(),
{
    if input.len() == 0 {
        0
    } else if input.last() == ZERO_DIGIT && run_after(run, input.drop_last()) % 2 == 1 {
        collapses(run, input.drop_last()) + 1
    } else {
        collapses(run, input.drop_last())
    }
}

/// The number of backslashes that stand in `input` immediately before the
/// index `at`, without a gap.
pub open spec fn run_before(input: Seq<u8>, at: int) -> nat
    decreases at,
{
    if 0 < at <= input.len() && input[at - 1] == BACKSLASH {
        run_before(input, at - 1) + 1
    } else {
        0
    }
}

/// Whether the byte at `at` is a digit `0` that collapses with the backslash
/// before it: an odd number of backslashes stands immediately before it.
pub open spec fn collapses_at(input: Seq<u8>, at: int) -> bool {
    0 <= at < input.len() && input[at] == ZERO_DIGIT && run_before(input, at) % 2 == 1
}

/// What the byte at `at` contributes to the rewrite of `input`: the digit of
/// a collapsing pair contributes the NUL, the backslash of the pair nothing,
/// and every other byte itself.
pub open spec fn image(input: Seq<u8>, at: int) -> Seq<u8> {
    if collapses_at(input, at) {
        seq![NUL]
    } else if collapses_at(input, at + 1) {
        Seq::empty()
    } else {
        seq![input[at]]
    }
}

/// The contributions of the first `upto` bytes of `input`, in order.
pub open spec fn images(input: Seq<u8>, upto: int) -> Seq<u8>
    decreases upto,
{
    if upto <= 0 {
        Seq::empty()
    } else {
        images(input, upto - 1) + image(input, upto - 1)
    }
}

} // verus!
