//! The record of the calls that a node stream and its close operation make on
//! the multiplexer, each with what was handed in and what came back.
//!
//! The journal is ghost. It is written by the functions that make the calls,
//! one entry for each call, and by nothing else; it passes from the node
//! stream to its close operation. The contracts of the node stream say in its
//! terms what was asked of the multiplexer, in which order, and what was made
//! of the answers. Each of them also says that the calls it added were made
//! on the multiplexer (`made_on`): an entry can only be had by making the
//! call.

use crate::muxing::StreamMuxer;
use std::task::Context;
use std::task::Poll;
use vstd::multiset::group_multiset_axioms;
use vstd::multiset::Multiset;
use vstd::prelude::*;
use vstd::seq_lib::to_multiset_build;
use vstd::seq_lib::to_multiset_insert;

verus! {

/// One call on the multiplexer.
pub enum MuxerCall<TMuxer: StreamMuxer> {
    /// `poll_inbound`, with its answer.
    PollInbound { answer: Poll<Result<TMuxer::Substream, TMuxer::Error>> },
    /// `open_outbound`, with the attempt that it handed out.
    OpenOutbound { attempt: TMuxer::OutboundSubstream },
    /// `poll_outbound`, with the attempt as it was handed in, the attempt as
    /// the multiplexer left it, and the answer.
    PollOutbound {
        attempt: TMuxer::OutboundSubstream,
        left: TMuxer::OutboundSubstream,
        answer: Poll<Result<TMuxer::Substream, TMuxer::Error>>,
    },
    /// `destroy_outbound`, with the attempt that was given back.
    DestroyOutbound { attempt: TMuxer::OutboundSubstream },
    /// `close`, with its answer.
    Close { outcome: Poll<Result<(), TMuxer::Error>> },
}

/// Whether `call` is a call that was made on `muxer`: what it holds as
/// handed in was handed to the method of `muxer` that it names, with some
/// wake context, and what it holds as the answer is what that method
/// returned.
pub open spec fn made_on<TMuxer: StreamMuxer>(muxer: TMuxer, call: MuxerCall<TMuxer>) -> bool {
    match call {
        MuxerCall::PollInbound { answer } => exists|cx: &mut Context<'_>| #[trigger]
            call_ensures(TMuxer::poll_inbound, (&muxer, cx), answer),
        MuxerCall::OpenOutbound { attempt } => call_ensures(
            TMuxer::open_outbound,
            (&muxer,),
            attempt,
        ),
        MuxerCall::PollOutbound { attempt, left, answer } => exists|
            cx: &mut Context<'_>,
            s: &mut TMuxer::OutboundSubstream,
        |
            *s == attempt && #[trigger] call_ensures(
                TMuxer::poll_outbound,
                (&muxer, cx, s),
                answer,
            ),
        MuxerCall::DestroyOutbound { attempt } => call_ensures(
            TMuxer::destroy_outbound,
            (&muxer, attempt),
            (),
        ),
        MuxerCall::Close { outcome } => exists|cx: &mut Context<'_>| #[trigger]
            call_ensures(TMuxer::close, (&muxer, cx), outcome),
    }
}

/// Whether every call of `journal` from the one at `from` on was made on
/// `muxer`.
pub open spec fn made_from<TMuxer: StreamMuxer>(
    muxer: TMuxer,
    journal: Seq<MuxerCall<TMuxer>>,
    from: int,
) -> bool {
    forall|k: int| from <= k < journal.len() ==> made_on(muxer, #[trigger] journal[k])
}

/// The data of a list of open attempts, in the order of the list.
pub open spec fn user_data_of<D, H>(pending: Seq<(D, H)>) -> Seq<D> {
    pending.map_values(|e: (D, H)| e.0)
}

/// The attempts of a list of open attempts, in the order of the list.
pub open spec fn attempts_of<D, H>(pending: Seq<(D, H)>) -> Seq<H> {
    pending.map_values(|e: (D, H)| e.1)
}

/// One `destroy_outbound` for each attempt, first to last.
pub open spec fn destroy_calls<TMuxer: StreamMuxer>(
    attempts: Seq<TMuxer::OutboundSubstream>,
) -> Seq<MuxerCall<TMuxer>> {
    attempts.map_values(
        |h: TMuxer::OutboundSubstream| MuxerCall::<TMuxer>::DestroyOutbound { attempt: h },
    )
}

/// One `poll_outbound` answered `Pending` for each attempt from the last down
/// to the one at `from`. The multiplexer left the attempt at `k` as `left[k]`.
pub open spec fn pending_polls<TMuxer: StreamMuxer>(
    attempts: Seq<TMuxer::OutboundSubstream>,
    left: Seq<TMuxer::OutboundSubstream>,
    from: int,
) -> Seq<MuxerCall<TMuxer>> {
    Seq::new(
        (attempts.len() - from) as nat,
        |k: int|
            MuxerCall::<TMuxer>::PollOutbound {
                attempt: attempts[attempts.len() - 1 - k],
                left: left[attempts.len() - 1 - k],
                answer: Poll::Pending,
            },
    )
}

/// The list of open attempts with each attempt as a poll left it: the data
/// of `pending`, each with the attempt of `left` at its place.
pub open spec fn requeued<D, H>(pending: Seq<(D, H)>, left: Seq<H>) -> Seq<(D, H)> {
    Seq::new(pending.len(), |k: int| (pending[k].0, left[k]))
}

/// The list with the item at `n` moved to its end. Without such an item the
/// list itself.
pub open spec fn moved_to_end<T>(list: Seq<T>, n: int) -> Seq<T> {
    if 0 <= n < list.len() {
        list.remove(n).push(list[n])
    } else {
        list
    }
}

/// How many calls of a journal are of the kind `of`.
pub open spec fn count_calls<TMuxer: StreamMuxer>(
    journal: Seq<MuxerCall<TMuxer>>,
    of: spec_fn(MuxerCall<TMuxer>) -> bool,
) -> nat
    decreases journal.len(),
{
    if journal.len() == 0 {
        0
    } else {
        count_calls(journal.drop_last(), of) + if of(journal.last()) {
            1nat
        } else {
            0nat
        }
    }
}

/// The calls that open an attempt.
pub open spec fn opening<TMuxer: StreamMuxer>() -> spec_fn(MuxerCall<TMuxer>) -> bool {
    |call: MuxerCall<TMuxer>| call is OpenOutbound
}

/// The calls that give an attempt back.
pub open spec fn destroying<TMuxer: StreamMuxer>() -> spec_fn(MuxerCall<TMuxer>) -> bool {
    |call: MuxerCall<TMuxer>| call is DestroyOutbound
}

/// The calls that ask to close the connection.
pub open spec fn closing<TMuxer: StreamMuxer>() -> spec_fn(MuxerCall<TMuxer>) -> bool {
    |call: MuxerCall<TMuxer>| call is Close
}

/// The polls of an attempt that the multiplexer answered with a substream.
pub open spec fn succeeding<TMuxer: StreamMuxer>() -> spec_fn(MuxerCall<TMuxer>) -> bool {
    |call: MuxerCall<TMuxer>|
        call matches MuxerCall::PollOutbound { answer, .. } && answer matches Poll::Ready(Ok(_))
}

/// How many attempts the calls of a journal opened.
pub open spec fn attempts_opened<TMuxer: StreamMuxer>(journal: Seq<MuxerCall<TMuxer>>) -> nat {
    count_calls(journal, opening())
}

/// How many attempts the calls of a journal gave back.
pub open spec fn attempts_destroyed<TMuxer: StreamMuxer>(journal: Seq<MuxerCall<TMuxer>>) -> nat {
    count_calls(journal, destroying())
}

/// How many times the calls of a journal asked to close the connection.
pub open spec fn closes<TMuxer: StreamMuxer>(journal: Seq<MuxerCall<TMuxer>>) -> nat {
    count_calls(journal, closing())
}

/// How many attempts the multiplexer settled with a substream in the calls of
/// a journal.
pub open spec fn attempts_succeeded<TMuxer: StreamMuxer>(journal: Seq<MuxerCall<TMuxer>>) -> nat {
    count_calls(journal, succeeding())
}

/// The attempt that the multiplexer handed to the node stream in a call:
/// the new attempt of `open_outbound`, the attempt as `poll_outbound` left
/// it. As a bag, empty for the other calls.
pub open spec fn handed_out_in<TMuxer: StreamMuxer>(call: MuxerCall<TMuxer>) -> Multiset<
    TMuxer::OutboundSubstream,
> {
    match call {
        MuxerCall::OpenOutbound { attempt } => Multiset::singleton(attempt),
        MuxerCall::PollOutbound { left, .. } => Multiset::singleton(left),
        _ => Multiset::empty(),
    }
}

/// The attempt that the node stream handed to the multiplexer in a call: the
/// attempt that `poll_outbound` was asked about, the attempt that
/// `destroy_outbound` took. As a bag, empty for the other calls.
pub open spec fn handed_in_in<TMuxer: StreamMuxer>(call: MuxerCall<TMuxer>) -> Multiset<
    TMuxer::OutboundSubstream,
> {
    match call {
        MuxerCall::PollOutbound { attempt, .. } => Multiset::singleton(attempt),
        MuxerCall::DestroyOutbound { attempt } => Multiset::singleton(attempt),
        _ => Multiset::empty(),
    }
}

/// The bag of the attempts that the multiplexer handed to the node stream in
/// the calls of a journal.
pub open spec fn attempts_handed_out<TMuxer: StreamMuxer>(
    journal: Seq<MuxerCall<TMuxer>>,
) -> Multiset<TMuxer::OutboundSubstream>
    decreases journal.len(),
{
    if journal.len() == 0 {
        Multiset::empty()
    } else {
        attempts_handed_out(journal.drop_last()).add(handed_out_in(journal.last()))
    }
}

/// The bag of the attempts that the node stream handed to the multiplexer in
/// the calls of a journal.
pub open spec fn attempts_handed_in<TMuxer: StreamMuxer>(
    journal: Seq<MuxerCall<TMuxer>>,
) -> Multiset<TMuxer::OutboundSubstream>
    decreases journal.len(),
{
    if journal.len() == 0 {
        Multiset::empty()
    } else {
        attempts_handed_in(journal.drop_last()).add(handed_in_in(journal.last()))
    }
}

/// One more call adds what it hands over to the two bags.
pub proof fn lemma_handed_push<TMuxer: StreamMuxer>(
    journal: Seq<MuxerCall<TMuxer>>,
    call: MuxerCall<TMuxer>,
)
    ensures
        attempts_handed_out(journal.push(call)) == attempts_handed_out(journal).add(
            handed_out_in(call),
        ),
        attempts_handed_in(journal.push(call)) == attempts_handed_in(journal).add(
            handed_in_in(call),
        ),
{
    assert(journal.push(call).drop_last() =~= journal);
}

/// The bags of two journals in a row add up.
pub proof fn lemma_handed_add<TMuxer: StreamMuxer>(
    first: Seq<MuxerCall<TMuxer>>,
    second: Seq<MuxerCall<TMuxer>>,
)
    ensures
        attempts_handed_out(first + second) == attempts_handed_out(first).add(
            attempts_handed_out(second),
        ),
        attempts_handed_in(first + second) == attempts_handed_in(first).add(
            attempts_handed_in(second),
        ),
    decreases second.len(),
{
    broadcast use group_multiset_axioms;

    if second.len() > 0 {
        lemma_handed_add(first, second.drop_last());
        assert((first + second).drop_last() =~= first + second.drop_last());
    }
}

/// Giving back a list of attempts hands exactly these to the multiplexer,
/// and takes none from it.
pub proof fn lemma_handed_destroy_calls<TMuxer: StreamMuxer>(
    attempts: Seq<TMuxer::OutboundSubstream>,
)
    ensures
        attempts_handed_out(destroy_calls::<TMuxer>(attempts)) == Multiset::<
            TMuxer::OutboundSubstream,
        >::empty(),
        attempts_handed_in(destroy_calls::<TMuxer>(attempts)) == attempts.to_multiset(),
    decreases attempts.len(),
{
    broadcast use group_multiset_axioms;

    let calls = destroy_calls::<TMuxer>(attempts);
    if attempts.len() == 0 {
        attempts.to_multiset_ensures();
    } else {
        lemma_handed_destroy_calls::<TMuxer>(attempts.drop_last());
        assert(calls.drop_last() =~= destroy_calls::<TMuxer>(attempts.drop_last()));
        to_multiset_build(attempts.drop_last(), attempts.last());
        assert(attempts.drop_last().push(attempts.last()) =~= attempts);
    }
}

/// Polls that are answered `Pending` hand each attempt that was polled to
/// the multiplexer and take it back as the multiplexer left it.
pub proof fn lemma_handed_pending_polls<TMuxer: StreamMuxer>(
    attempts: Seq<TMuxer::OutboundSubstream>,
    left: Seq<TMuxer::OutboundSubstream>,
    from: int,
)
    requires
        0 <= from <= attempts.len(),
        left.len() == attempts.len(),
    ensures
        attempts_handed_out(pending_polls::<TMuxer>(attempts, left, from)) == left.subrange(
            from,
            left.len() as int,
        ).to_multiset(),
        attempts_handed_in(pending_polls::<TMuxer>(attempts, left, from)) == attempts.subrange(
            from,
            attempts.len() as int,
        ).to_multiset(),
    decreases attempts.len() - from,
{
    broadcast use group_multiset_axioms;

    let len = attempts.len() as int;
    let calls = pending_polls::<TMuxer>(attempts, left, from);
    if from == len {
        left.subrange(from, len).to_multiset_ensures();
        attempts.subrange(from, len).to_multiset_ensures();
    } else {
        lemma_handed_pending_polls::<TMuxer>(attempts, left, from + 1);
        assert(calls.drop_last() =~= pending_polls::<TMuxer>(attempts, left, from + 1));
        to_multiset_insert(left.subrange(from + 1, len), 0, left[from]);
        to_multiset_insert(attempts.subrange(from + 1, len), 0, attempts[from]);
        assert(left.subrange(from + 1, len).insert(0, left[from]) =~= left.subrange(from, len));
        assert(attempts.subrange(from + 1, len).insert(0, attempts[from]) =~= attempts.subrange(
            from,
            len,
        ));
    }
}

/// One more call adds one to the count of its kind, and nothing to another.
pub proof fn lemma_count_push<TMuxer: StreamMuxer>(
    journal: Seq<MuxerCall<TMuxer>>,
    call: MuxerCall<TMuxer>,
    of: spec_fn(MuxerCall<TMuxer>) -> bool,
)
    ensures
        count_calls(journal.push(call), of) == count_calls(journal, of) + if of(call) {
            1nat
        } else {
            0nat
        },
{
    assert(journal.push(call).drop_last() =~= journal);
}

/// The counts of two journals in a row add up.
pub proof fn lemma_count_add<TMuxer: StreamMuxer>(
    first: Seq<MuxerCall<TMuxer>>,
    second: Seq<MuxerCall<TMuxer>>,
    of: spec_fn(MuxerCall<TMuxer>) -> bool,
)
    ensures
        count_calls(first + second, of) == count_calls(first, of) + count_calls(second, of),
    decreases second.len(),
{
    if second.len() > 0 {
        lemma_count_add(first, second.drop_last(), of);
        assert((first + second).drop_last() =~= first + second.drop_last());
    }
}

/// A journal without a call of a kind counts none of that kind.
pub proof fn lemma_count_none<TMuxer: StreamMuxer>(
    journal: Seq<MuxerCall<TMuxer>>,
    of: spec_fn(MuxerCall<TMuxer>) -> bool,
)
    requires
        forall|k: int| 0 <= k < journal.len() ==> !of(#[trigger] journal[k]),
    ensures
        count_calls(journal, of) == 0,
    decreases journal.len(),
{
    if journal.len() > 0 {
        lemma_count_none(journal.drop_last(), of);
    }
}

/// A journal of calls of one kind counts them all.
pub proof fn lemma_count_all<TMuxer: StreamMuxer>(
    journal: Seq<MuxerCall<TMuxer>>,
    of: spec_fn(MuxerCall<TMuxer>) -> bool,
)
    requires
        forall|k: int| 0 <= k < journal.len() ==> of(#[trigger] journal[k]),
    ensures
        count_calls(journal, of) == journal.len(),
    decreases journal.len(),
{
    if journal.len() > 0 {
        lemma_count_all(journal.drop_last(), of);
    }
}

/// One more call adds to the count that it belongs to, and to no other.
pub proof fn lemma_counts_push<TMuxer: StreamMuxer>(
    journal: Seq<MuxerCall<TMuxer>>,
    call: MuxerCall<TMuxer>,
)
    ensures
        attempts_opened(journal.push(call)) == attempts_opened(journal) + if call is OpenOutbound {
            1nat
        } else {
            0nat
        },
        attempts_destroyed(journal.push(call)) == attempts_destroyed(journal)
            + if call is DestroyOutbound {
            1nat
        } else {
            0nat
        },
        closes(journal.push(call)) == closes(journal) + if call is Close {
            1nat
        } else {
            0nat
        },
        attempts_succeeded(journal.push(call)) == attempts_succeeded(journal) + if succeeding()(
            call,
        ) {
            1nat
        } else {
            0nat
        },
{
    lemma_count_push(journal, call, opening());
    lemma_count_push(journal, call, destroying());
    lemma_count_push(journal, call, closing());
    lemma_count_push(journal, call, succeeding());
}

/// The counts of two journals in a row add up.
pub proof fn lemma_counts_add<TMuxer: StreamMuxer>(
    first: Seq<MuxerCall<TMuxer>>,
    second: Seq<MuxerCall<TMuxer>>,
)
    ensures
        attempts_opened(first + second) == attempts_opened(first) + attempts_opened(second),
        attempts_destroyed(first + second) == attempts_destroyed(first) + attempts_destroyed(
            second,
        ),
        closes(first + second) == closes(first) + closes(second),
        attempts_succeeded(first + second) == attempts_succeeded(first) + attempts_succeeded(
            second,
        ),
{
    lemma_count_add(first, second, opening());
    lemma_count_add(first, second, destroying());
    lemma_count_add(first, second, closing());
    lemma_count_add(first, second, succeeding());
}

/// Giving back a list of attempts gives back as many as the list holds, and
/// does nothing else.
pub proof fn lemma_counts_destroy_calls<TMuxer: StreamMuxer>(
    attempts: Seq<TMuxer::OutboundSubstream>,
)
    ensures
        attempts_opened(destroy_calls::<TMuxer>(attempts)) == 0,
        attempts_destroyed(destroy_calls::<TMuxer>(attempts)) == attempts.len(),
        closes(destroy_calls::<TMuxer>(attempts)) == 0,
        attempts_succeeded(destroy_calls::<TMuxer>(attempts)) == 0,
{
    let calls = destroy_calls::<TMuxer>(attempts);
    lemma_count_none(calls, opening());
    lemma_count_all(calls, destroying());
    lemma_count_none(calls, closing());
    lemma_count_none(calls, succeeding());
}

/// Polls that are answered `Pending` open nothing, give nothing back, settle
/// nothing and do not ask to close the connection.
pub proof fn lemma_counts_pending_polls<TMuxer: StreamMuxer>(
    attempts: Seq<TMuxer::OutboundSubstream>,
    left: Seq<TMuxer::OutboundSubstream>,
    from: int,
)
    requires
        0 <= from <= attempts.len(),
    ensures
        attempts_opened(pending_polls::<TMuxer>(attempts, left, from)) == 0,
        attempts_destroyed(pending_polls::<TMuxer>(attempts, left, from)) == 0,
        closes(pending_polls::<TMuxer>(attempts, left, from)) == 0,
        attempts_succeeded(pending_polls::<TMuxer>(attempts, left, from)) == 0,
{
    let calls = pending_polls::<TMuxer>(attempts, left, from);
    lemma_count_none(calls, opening());
    lemma_count_none(calls, destroying());
    lemma_count_none(calls, closing());
    lemma_count_none(calls, succeeding());
}

} // verus!
