//! What holds of the rewrite for every input, proved from the model alone.

use crate::model::{
    backslashes, collapses, collapses_at, decided, emitted, flushed, image, images, next_run,
    rewrite, run_after, run_before, run_fits, step_output, BACKSLASH, NUL, ZERO_DIGIT,
};
use vstd::prelude::*;

verus! {

/// Reading `first` and then `second` is reading their concatenation: the
/// state reached after `first` is all that `second` needs to know of it.
pub proof fn lemma_concat(run: nat, first: Seq<u8>, second: Seq<u8>)
    ensures
        run_after(run, first + second) == run_after(run_after(run, first), second),
        emitted(run, first + second) == emitted(run, first) + emitted(
            run_after(run, first),
            second,
        ),
    decreases second.len(),
{
    if second.len() == 0 {
        assert(first + second =~= first);
        assert(emitted(run, first) + Seq::<u8>::empty() =~= emitted(run, first));
    } else {
        let whole = first + second;
        assert(whole.drop_last() =~= first + second.drop_last());
        assert(whole.last() == second.last());
        lemma_concat(run, first, second.drop_last());
        let mid = run_after(run, first);
        assert(emitted(run, whole) =~= emitted(run, first) + emitted(mid, second));
    }
}

/// One more byte behind `input` adds what its arrival makes final in the
/// state that `input` leaves.
pub proof fn lemma_push(run: nat, input: Seq<u8>, byte: u8)
    ensures
        run_after(run, input.push(byte)) == next_run(run_after(run, input), byte),
        emitted(run, input.push(byte)) == emitted(run, input) + step_output(
            run_after(run, input),
            byte,
        ),
{
    assert(input.push(byte).drop_last() =~= input);
}

/// An open run grows by at most one with each byte.
pub proof fn lemma_run_bound(run: nat, input: Seq<u8>)
    ensures
        run_after(run, input) <= run + input.len(),
    decreases input.len(),
{
    if input.len() > 0 {
        lemma_run_bound(run, input.drop_last());
    }
}

/// A counter with room for as many backslashes as `input` has bytes can
/// follow `input`.
pub proof fn lemma_room_for_input(run: nat, input: Seq<u8>)
    requires
        run + input.len() <= u64::MAX,
    ensures
        run_fits(run, input),
{
    assert forall|i: int| 0 <= i <= input.len() implies #[trigger] run_after(run, input.take(i))
        <= u64::MAX by {
        lemma_run_bound(run, input.take(i));
    }
}

/// Chunk-boundary invariance: wherever a stream is cut in two, feeding the
/// two pieces one after the other, with the state carried over the cut, emits
/// what feeding the whole emits and ends in the same state. The cut may fall
/// inside a run of backslashes or between a backslash and the digit behind it.
pub proof fn lemma_chunk_boundary(run: nat, input: Seq<u8>, cut: int)
    requires
        0 <= cut <= input.len(),
    ensures
        run_after(run, input) == run_after(run_after(run, input.take(cut)), input.skip(cut)),
        emitted(run, input) == emitted(run, input.take(cut)) + emitted(
            run_after(run, input.take(cut)),
            input.skip(cut),
        ),
{
    assert(input =~= input.take(cut) + input.skip(cut));
    lemma_concat(run, input.take(cut), input.skip(cut));
}

/// A span without a backslash passes a transducer that holds nothing back
/// unchanged, and leaves it holding nothing back.
pub proof fn lemma_plain_span(span: Seq<u8>)
    requires
        forall|i: int| 0 <= i < span.len() ==> span[i] != BACKSLASH,
    ensures
        run_after(0, span) == 0,
        emitted(0, span) == span,
    decreases span.len(),
{
    if span.len() > 0 {
        lemma_plain_span(span.drop_last());
        assert(span =~= span.drop_last().push(span.last()));
        assert(emitted(0, span) =~= span);
    }
}

/// A span of bytes that are neither backslash nor the digit `0` releases the
/// backslash that is held back, passes unchanged, and leaves no run open.
pub proof fn lemma_ordinary_span(run: nat, span: Seq<u8>)
    requires
        span.len() > 0,
        forall|i: int| 0 <= i < span.len() ==> span[i] != BACKSLASH && span[i] != ZERO_DIGIT,
    ensures
        run_after(run, span) == 0,
        emitted(run, span) == flushed(run) + span,
{
    let head = seq![span[0]];
    let tail = span.skip(1);
    assert(span =~= head + tail);
    lemma_concat(run, head, tail);
    lemma_push(run, Seq::empty(), span[0]);
    assert(Seq::<u8>::empty().push(span[0]) =~= head);
    lemma_plain_span(tail);
    assert(emitted(run, span) =~= flushed(run) + span);
}

/// Identity: a stream without a backslash is its own rewrite.
pub proof fn lemma_identity_without_backslash(input: Seq<u8>)
    requires
        forall|i: int| 0 <= i < input.len() ==> input[i] != BACKSLASH,
    ensures
        rewrite(input) == input,
{
    lemma_plain_span(input);
    assert(rewrite(input) =~= input);
}

/// A fresh transducer lets all backslashes of a run pass but the last, which
/// it holds back, and counts them all.
pub proof fn lemma_run_of_backslashes(n: nat)
    ensures
        run_after(0, backslashes(n)) == n,
        n > 0 ==> emitted(0, backslashes(n)) == backslashes((n - 1) as nat),
        n == 0 ==> emitted(0, backslashes(n)) == Seq::<u8>::empty(),
    decreases n,
{
    if n > 0 {
        let shorter = backslashes((n - 1) as nat);
        lemma_run_of_backslashes((n - 1) as nat);
        lemma_push(0, shorter, BACKSLASH);
        assert(backslashes(n) =~= shorter.push(BACKSLASH));
        if n > 1 {
            assert(backslashes((n - 1) as nat) =~= backslashes((n - 2) as nat).push(BACKSLASH));
        } else {
            assert(emitted(0, backslashes(n)) =~= backslashes(0));
        }
    } else {
        assert(backslashes(0) =~= Seq::<u8>::empty());
    }
}

/// The collapse rule, by the length `n` of the run before a digit `0`: the
/// last backslash of the run and the digit become one NUL if and only if `n`
/// is odd; behind an even run, and behind none, run and digit pass unchanged.
/// Either way no run is open afterwards.
pub proof fn lemma_collapse_rule(n: nat)
    ensures
        run_after(0, backslashes(n).push(ZERO_DIGIT)) == 0,
        rewrite(backslashes(n).push(ZERO_DIGIT)) == decided(n),
        n % 2 == 1 ==> rewrite(backslashes(n).push(ZERO_DIGIT)) == backslashes((n - 1) as nat).push(
            NUL,
        ),
        n % 2 == 0 ==> rewrite(backslashes(n).push(ZERO_DIGIT)) == backslashes(n).push(ZERO_DIGIT),
{
    lemma_run_of_backslashes(n);
    lemma_push(0, backslashes(n), ZERO_DIGIT);
    if n > 0 && n % 2 == 0 {
        assert(backslashes((n - 1) as nat) + seq![BACKSLASH, ZERO_DIGIT] =~= backslashes(n).push(
            ZERO_DIGIT,
        ));
    }
    assert(rewrite(backslashes(n).push(ZERO_DIGIT)) =~= decided(n));
}

/// The collapse rule inside a stream: where `head` leaves no run open, a run
/// of `n` backslashes and a digit `0` behind it are rewritten by the rule,
/// whatever stands before and behind them; and `tail` is rewritten as if the
/// stream began with it, because the decision leaves no run open.
pub proof fn lemma_collapse_in_context(head: Seq<u8>, n: nat, tail: Seq<u8>)
    requires
        head.len() == 0 || head.last() != BACKSLASH,
    ensures
        rewrite(head + backslashes(n).push(ZERO_DIGIT) + tail) == rewrite(head) + decided(n)
            + rewrite(tail),
{
    let pair = backslashes(n).push(ZERO_DIGIT);
    lemma_collapse_rule(n);
    assert(run_after(0, head) == 0);
    lemma_concat(0, head, pair);
    lemma_concat(0, head + pair, tail);
    assert(rewrite(head + pair + tail) =~= rewrite(head) + decided(n) + rewrite(tail));
}

/// After a decision the run counter is zero: whatever was open before, a
/// digit `0` leaves no run open, so that the bytes behind it are taken as by
/// a fresh transducer.
pub proof fn lemma_decision_closes_run(run: nat, head: Seq<u8>, tail: Seq<u8>)
    ensures
        run_after(run, head.push(ZERO_DIGIT)) == 0,
        run_after(run, head.push(ZERO_DIGIT) + tail) == run_after(0, tail),
        emitted(run, head.push(ZERO_DIGIT) + tail) == emitted(run, head.push(ZERO_DIGIT))
            + emitted(0, tail),
{
    lemma_push(run, head, ZERO_DIGIT);
    lemma_concat(run, head.push(ZERO_DIGIT), tail);
}

/// Every byte is accounted for: the bytes that arrive, and the backslash that
/// was held back before them, are the bytes that become final, the backslash
/// that is held back after them, and one byte for each pair that collapsed.
pub proof fn lemma_byte_accounting(run: nat, input: Seq<u8>)
    ensures
        emitted(run, input).len() + flushed(run_after(run, input)).len() + collapses(run, input)
            == flushed(run).len() + input.len(),
    decreases input.len(),
{
    if input.len() > 0 {
        lemma_byte_accounting(run, input.drop_last());
    }
}

/// Over a whole stream nothing is lost but one byte for each collapsed pair;
/// the rewrite is never longer than the stream.
pub proof fn lemma_rewrite_length(input: Seq<u8>)
    ensures
        rewrite(input).len() + collapses(0, input) == input.len(),
        rewrite(input).len() <= input.len(),
{
    lemma_byte_accounting(0, input);
}

/// The state machine, read by position: after the first `upto` bytes the open
/// run is the run of backslashes that ends there, and what has become final
/// is the contributions of those bytes, without that of a backslash that is
/// still held back.
proof fn lemma_prefix_by_position(input: Seq<u8>, upto: int)
    requires
        0 <= upto <= input.len(),
    ensures
        run_after(0, input.take(upto)) == run_before(input, upto),
        emitted(0, input.take(upto)) == if run_before(input, upto) > 0 {
            images(input, upto - 1)
        } else {
            images(input, upto)
        },
    decreases upto,
{
    if upto == 0 {
        assert(input.take(0) =~= Seq::<u8>::empty());
    } else {
        let at = upto - 1;
        let byte = input[at];
        let run = run_before(input, at);
        lemma_prefix_by_position(input, at);
        lemma_push(0, input.take(at), byte);
        assert(input.take(upto) =~= input.take(at).push(byte));
        assert(images(input, upto) == images(input, at) + image(input, at));
        if run > 0 {
            assert(input[at - 1] == BACKSLASH);
            assert(!collapses_at(input, at - 1));
            assert(images(input, at) == images(input, at - 1) + image(input, at - 1));
            if byte == BACKSLASH {
                assert(image(input, at - 1) =~= seq![BACKSLASH]);
            } else if collapses_at(input, at) {
                assert(image(input, at - 1) =~= Seq::<u8>::empty());
                assert(images(input, upto) =~= images(input, at - 1) + seq![NUL]);
            } else {
                assert(!collapses_at(input, upto));
                assert(images(input, upto) =~= images(input, at - 1) + seq![BACKSLASH, byte]);
            }
        } else if byte == BACKSLASH {
            assert(images(input, at) + Seq::<u8>::empty() =~= images(input, at));
        } else {
            assert(!collapses_at(input, at));
            assert(!collapses_at(input, upto));
        }
    }
}

/// The rewrite, read by position: it is the stream with every backslash and
/// digit `0` that stand together behind an even number of further backslashes
/// (or none) replaced by one NUL, and with every other byte in its place.
pub proof fn lemma_rewrite_by_position(input: Seq<u8>)
    ensures
        rewrite(input) == images(input, input.len() as int),
{
    let len = input.len() as int;
    lemma_prefix_by_position(input, len);
    assert(input.take(len) =~= input);
    if run_before(input, len) > 0 {
        assert(!collapses_at(input, len - 1));
        assert(!collapses_at(input, len));
        assert(images(input, len) == images(input, len - 1) + image(input, len - 1));
        assert(rewrite(input) =~= images(input, len));
    } else {
        assert(rewrite(input) =~= images(input, len));
    }
}

} // verus!
