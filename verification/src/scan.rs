//! Chunk-wise processing: the transitions of the transducer, taken a span at a
//! time wherever a search for the next byte of interest allows it.

use crate::laws::{
    lemma_concat, lemma_ordinary_span, lemma_plain_span, lemma_push, lemma_room_for_input,
};
use crate::model::{emitted, rewrite, run_after, run_fits, BACKSLASH, ZERO_DIGIT};
use crate::transducer::Transducer;
use vstd::prelude::*;
use vstd::slice::slice_subrange;

verus! {

/// `memchr::memchr` returns the index of the first byte of `haystack` that
/// equals `needle`, and `None` when no byte of `haystack` does.
pub assume_specification[ memchr::memchr ](needle: u8, haystack: &[u8]) -> (found: Option<usize>)
    ensures
        match found {
            Some(at) => at < haystack@.len() && haystack@[at as int] == needle && forall|i: int|
                0 <= i < at ==> haystack@[i] != needle,
            None => forall|i: int| 0 <= i < haystack@.len() ==> haystack@[i] != needle,
        },
;

/// `memchr::memchr2` returns the index of the first byte of `haystack` that
/// equals `needle1` or `needle2`, and `None` when no byte of `haystack` does.
pub assume_specification[ memchr::memchr2 ](needle1: u8, needle2: u8, haystack: &[u8]) -> (found:
    Option<usize>)
    ensures
        match found {
            Some(at) => at < haystack@.len() && (haystack@[at as int] == needle1 || haystack@[at as int]
                == needle2) && forall|i: int|
                0 <= i < at ==> haystack@[i] != needle1 && haystack@[i] != needle2,
            None => forall|i: int|
                0 <= i < haystack@.len() ==> haystack@[i] != needle1 && haystack@[i] != needle2,
        },
;

/// Feeds one chunk of the stream to the transducer and appends to `writer`
/// what the chunk makes final. The state is carried in `state` from chunk to
/// chunk, so a run or a pair may straddle any number of chunks.
///
/// While nothing is held back, everything up to the next backslash is copied
/// in one piece; inside a run the bytes are taken one by one.
///
/// The run counter must be able to follow the chunk.
pub fn process_input(state: &mut Transducer, chunk: &[u8], writer: &mut Vec<u8>)
    requires
        run_fits(old(state)@, chunk@),
    ensures
        final(state)@ == run_after(old(state)@, chunk@),
        final(writer)@ == old(writer)@ + emitted(old(state)@, chunk@),
{
    let ghost run0 = state@;
    let ghost out0 = writer@;
    let len = chunk.len();
    let mut position: usize = 0;
    proof {
        assert(chunk@.take(0) =~= Seq::<u8>::empty());
        assert(out0 + emitted(run0, chunk@.take(0)) =~= out0);
    }
    while position < len
        invariant
            len == chunk@.len(),
            position <= len,
            state@ == run_after(run0, chunk@.take(position as int)),
            writer@ == out0 + emitted(run0, chunk@.take(position as int)),
            run_fits(run0, chunk@),
        decreases len - position,
    {
        let ghost done = chunk@.take(position as int);
        if state.run() == 0 {
            let rest = slice_subrange(chunk, position, len);
            match memchr::memchr(BACKSLASH, rest) {
                Some(offset) => {
                    let plain = slice_subrange(rest, 0, offset);
                    writer.extend_from_slice(plain);
                    state.step(BACKSLASH, writer);
                    proof {
                        lemma_plain_span(plain@);
                        lemma_concat(run0, done, plain@);
                        lemma_push(run0, done + plain@, BACKSLASH);
                        assert(chunk@.take(position + offset + 1) =~= (done + plain@).push(
                            BACKSLASH,
                        ));
                        assert(writer@ =~= out0 + emitted(
                            run0,
                            chunk@.take(position + offset + 1),
                        ));
                    }
                    position = position + offset + 1;
                },
                None => {
                    writer.extend_from_slice(rest);
                    proof {
                        lemma_plain_span(rest@);
                        lemma_concat(run0, done, rest@);
                        assert(chunk@.take(len as int) =~= done + rest@);
                        assert(writer@ =~= out0 + emitted(run0, chunk@.take(len as int)));
                    }
                    position = len;
                },
            }
        } else {
            proof {
                lemma_push(run0, done, chunk@[position as int]);
                assert(chunk@.take(position + 1) =~= done.push(chunk@[position as int]));
            }
            state.step(chunk[position], writer);
            proof {
                assert(writer@ =~= out0 + emitted(run0, chunk@.take(position + 1)));
            }
            position = position + 1;
        }
    }
    proof {
        assert(chunk@.take(len as int) =~= chunk@);
    }
}

/// Feeds one chunk of the stream to the transducer, as [`process_input`] does
/// and with the same result, but looks for the next backslash or digit `0`
/// in every state: the bytes before it are of no interest to the rule and
/// are copied in one piece, behind the backslash that they release.
///
/// The run counter must be able to follow the chunk.
pub fn process_input2(state: &mut Transducer, chunk: &[u8], writer: &mut Vec<u8>)
    requires
        run_fits(old(state)@, chunk@),
    ensures
        final(state)@ == run_after(old(state)@, chunk@),
        final(writer)@ == old(writer)@ + emitted(old(state)@, chunk@),
{
    let ghost run0 = state@;
    let ghost out0 = writer@;
    let len = chunk.len();
    let mut position: usize = 0;
    proof {
        assert(chunk@.take(0) =~= Seq::<u8>::empty());
        assert(out0 + emitted(run0, chunk@.take(0)) =~= out0);
    }
    while position < len
        invariant
            len == chunk@.len(),
            position <= len,
            state@ == run_after(run0, chunk@.take(position as int)),
            writer@ == out0 + emitted(run0, chunk@.take(position as int)),
            run_fits(run0, chunk@),
        decreases len - position,
    {
        let ghost done = chunk@.take(position as int);
        let ghost held = state@;
        let rest = slice_subrange(chunk, position, len);
        match memchr::memchr2(BACKSLASH, ZERO_DIGIT, rest) {
            Some(offset) => {
                let ordinary = slice_subrange(rest, 0, offset);
                if offset > 0 {
                    state.finish(writer);
                    writer.extend_from_slice(ordinary);
                    proof {
                        lemma_ordinary_span(held, ordinary@);
                    }
                }
                let ghost before = done + ordinary@;
                proof {
                    lemma_concat(run0, done, ordinary@);
                    assert(offset == 0 ==> before =~= done);
                    assert(writer@ =~= out0 + emitted(run0, before));
                }
                proof {
                    lemma_push(run0, before, rest@[offset as int]);
                    assert(chunk@.take(position + offset + 1) =~= before.push(
                        rest@[offset as int],
                    ));
                }
                state.step(rest[offset], writer);
                proof {
                    assert(writer@ =~= out0 + emitted(run0, chunk@.take(position + offset + 1)));
                }
                position = position + offset + 1;
            },
            None => {
                state.finish(writer);
                writer.extend_from_slice(rest);
                proof {
                    lemma_ordinary_span(held, rest@);
                    lemma_concat(run0, done, rest@);
                    assert(chunk@.take(len as int) =~= done + rest@);
                    assert(writer@ =~= out0 + emitted(run0, chunk@.take(len as int)));
                }
                position = len;
            },
        }
    }
    proof {
        assert(chunk@.take(len as int) =~= chunk@);
    }
}

/// Rewrites a whole stream that is held in memory: appends to `sink` what a
/// fresh transducer emits for `source`, and then what the end of the stream
/// releases.
pub fn transform(source: &[u8], sink: &mut Vec<u8>)
    ensures
        final(sink)@ == old(sink)@ + rewrite(source@),
{
    let mut state = Transducer::new();
    proof {
        assert(source@.len() == source.len());
        lemma_room_for_input(0, source@);
    }
    process_input(&mut state, source, sink);
    state.finish(sink);
    assert(sink@ =~= old(sink)@ + rewrite(source@));
}

} // verus!
