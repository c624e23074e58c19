//! What holds of a node stream over more than one call, or of every poll.

use crate::journal::attempts_destroyed;
use crate::journal::attempts_handed_in;
use crate::journal::attempts_handed_out;
use crate::journal::attempts_of;
use crate::journal::attempts_opened;
use crate::journal::attempts_succeeded;
use crate::journal::closes;
use crate::journal::destroy_calls;
use crate::journal::lemma_counts_add;
use crate::journal::lemma_counts_destroy_calls;
use crate::journal::lemma_counts_pending_polls;
use crate::journal::lemma_counts_push;
use crate::journal::lemma_handed_add;
use crate::journal::lemma_handed_destroy_calls;
use crate::journal::lemma_handed_pending_polls;
use crate::journal::lemma_handed_push;
use crate::journal::moved_to_end;
use crate::journal::requeued;
use crate::journal::pending_polls;
use crate::journal::user_data_of;
use crate::journal::MuxerCall;
use crate::muxing::StreamMuxer;
use crate::node::Close;
use crate::node::NodeEvent;
use crate::node::NodeStream;
use std::io::Error as IoError;
use std::task::Poll;
use vstd::multiset::group_multiset_axioms;
use vstd::multiset::Multiset;
use vstd::prelude::*;
use vstd::seq_lib::to_multiset_build;
use vstd::seq_lib::lemma_multiset_commutative;
use vstd::seq_lib::to_multiset_insert;
use vstd::seq_lib::to_multiset_remove;

verus! {

/// Whether a call is a poll that the multiplexer answered `Ready`.
pub open spec fn answered_ready<TMuxer: StreamMuxer>(call: MuxerCall<TMuxer>) -> bool {
    match call {
        MuxerCall::PollInbound { answer } => answer is Ready,
        MuxerCall::PollOutbound { answer, .. } => answer is Ready,
        _ => false,
    }
}

/// Whether the answer of a poll is an outbound event.
pub open spec fn is_outbound_event<TMuxer: StreamMuxer, TUserData>(
    r: Poll<Result<NodeEvent<TMuxer, TUserData>, IoError>>,
) -> bool {
    r matches Poll::Ready(Ok(NodeEvent::OutboundSubstream { .. }))
}

/// One operation on a node stream, with what it was given or what it
/// answered.
#[verifier::reject_recursive_types(TMuxer)]
#[verifier::reject_recursive_types(TUserData)]
pub enum Step<TMuxer: StreamMuxer, TUserData> {
    /// `open_substream` with this data.
    Open(TUserData),
    /// `poll` with this answer.
    Poll(Poll<Result<NodeEvent<TMuxer, TUserData>, IoError>>),
    /// `cancel_outgoing` with this result.
    Cancel(Seq<TUserData>),
    /// The drop of the node stream.
    Drop,
}

/// `post` is `pre` after the operation `step`.
pub open spec fn stepped<TMuxer: StreamMuxer, TUserData>(
    pre: NodeStream<TMuxer, TUserData>,
    post: NodeStream<TMuxer, TUserData>,
    step: Step<TMuxer, TUserData>,
) -> bool {
    match step {
        Step::Open(user_data) => NodeStream::opened(pre, post, user_data),
        Step::Poll(r) => NodeStream::polled(pre, post, r),
        Step::Cancel(out) => NodeStream::cancelled(pre, post, out),
        Step::Drop => exists|out: Seq<TUserData>| #[trigger] NodeStream::cancelled(pre, post, out),
    }
}

/// `states` are the states that a node stream goes through in the
/// operations `steps`, one after the other.
pub open spec fn is_run<TMuxer: StreamMuxer, TUserData>(
    states: Seq<NodeStream<TMuxer, TUserData>>,
    steps: Seq<Step<TMuxer, TUserData>>,
) -> bool {
    &&& states.len() == steps.len() + 1
    &&& forall|i: int|
        0 <= i < steps.len() ==> stepped(states[i], states[i + 1], #[trigger] steps[i])
}

/// How many of the operations `steps` are polls that answered an outbound
/// event.
pub open spec fn outbound_events<TMuxer: StreamMuxer, TUserData>(
    steps: Seq<Step<TMuxer, TUserData>>,
) -> nat
    decreases steps.len(),
{
    if steps.len() == 0 {
        0
    } else {
        outbound_events(steps.drop_last()) + if steps.last() matches Step::Poll(r)
            && is_outbound_event(r) {
            1nat
        } else {
            0nat
        }
    }
}

/// A node stream with no open attempt and no call made is accounted for.
pub proof fn lemma_fresh_is_accounted<TMuxer: StreamMuxer, TUserData>(
    node: NodeStream<TMuxer, TUserData>,
)
    requires
        node.pending().len() == 0,
        node.journal().len() == 0,
    ensures
        node.accounted(),
        node.wf(),
{
    broadcast use group_multiset_axioms;

    let open = attempts_of(node.pending());
    open.to_multiset_ensures();
    assert(attempts_handed_out(node.journal()) =~= attempts_handed_in(node.journal()).add(
        open.to_multiset(),
    ));
}

/// Opening an attempt keeps every attempt accounted for, and the node stream
/// well formed.
pub proof fn lemma_open_keeps_account<TMuxer: StreamMuxer, TUserData>(
    pre: NodeStream<TMuxer, TUserData>,
    post: NodeStream<TMuxer, TUserData>,
    user_data: TUserData,
)
    requires
        NodeStream::opened(pre, post, user_data),
    ensures
        pre.accounted() ==> post.accounted(),
        pre.wf() ==> post.wf(),
{
    broadcast use group_multiset_axioms;

    let attempt = post.pending().last().1;
    let call = MuxerCall::<TMuxer>::OpenOutbound { attempt };
    lemma_counts_push(pre.journal(), call);
    lemma_handed_push(pre.journal(), call);
    to_multiset_build(attempts_of(pre.pending()), attempt);
    assert(attempts_of(post.pending()) =~= attempts_of(pre.pending()).push(attempt));
    if pre.accounted() {
        assert(attempts_handed_out(post.journal()) =~= attempts_handed_in(post.journal()).add(
            attempts_of(post.pending()).to_multiset(),
        ));
    }
}

/// Giving every open attempt back keeps every attempt accounted for, and the
/// node stream well formed.
pub proof fn lemma_cancel_keeps_account<TMuxer: StreamMuxer, TUserData>(
    pre: NodeStream<TMuxer, TUserData>,
    post: NodeStream<TMuxer, TUserData>,
    out: Seq<TUserData>,
)
    requires
        NodeStream::cancelled(pre, post, out),
    ensures
        pre.accounted() ==> post.accounted(),
        pre.wf() ==> post.wf(),
{
    broadcast use group_multiset_axioms;

    let given_back = destroy_calls::<TMuxer>(attempts_of(pre.pending()));
    lemma_counts_add(pre.journal(), given_back);
    lemma_counts_destroy_calls::<TMuxer>(attempts_of(pre.pending()));
    lemma_handed_add(pre.journal(), given_back);
    lemma_handed_destroy_calls::<TMuxer>(attempts_of(pre.pending()));
    attempts_of(post.pending()).to_multiset_ensures();
    if pre.accounted() {
        assert(attempts_handed_out(post.journal()) =~= attempts_handed_in(post.journal()).add(
            attempts_of(post.pending()).to_multiset(),
        ));
    }
}

/// The bag of a list is the bag of its items before `n`, the item at `n` and
/// the bag of its items after `n`.
proof fn lemma_split_at<T>(list: Seq<T>, n: int)
    requires
        0 <= n < list.len(),
    ensures
        list.to_multiset() == list.subrange(0, n).to_multiset().add(
            list.subrange(n + 1, list.len() as int).to_multiset(),
        ).insert(list[n]),
        list.remove(n).to_multiset() == list.subrange(0, n).to_multiset().add(
            list.subrange(n + 1, list.len() as int).to_multiset(),
        ),
{
    broadcast use group_multiset_axioms;

    let before = list.subrange(0, n);
    let after = list.subrange(n + 1, list.len() as int);
    lemma_multiset_commutative(before, after);
    to_multiset_insert(list.remove(n), n, list[n]);
    assert(list.remove(n).insert(n, list[n]) =~= list);
}

/// A poll keeps every attempt accounted for: what it hands to the
/// multiplexer it takes back as the multiplexer left it, and it puts that in
/// the list again or gives it back for good.
pub proof fn lemma_poll_keeps_account<TMuxer: StreamMuxer, TUserData>(
    pre: NodeStream<TMuxer, TUserData>,
    post: NodeStream<TMuxer, TUserData>,
    r: Poll<Result<NodeEvent<TMuxer, TUserData>, IoError>>,
)
    requires
        NodeStream::polled(pre, post, r),
        pre.accounted(),
    ensures
        post.accounted(),
{
    broadcast use group_multiset_axioms;

    let calls = post.journal();
    let attempts = attempts_of(pre.pending());
    let len = attempts.len() as int;
    let first = MuxerCall::<TMuxer>::PollInbound { answer: Poll::Pending };
    let asked = pre.journal().push(first);
    lemma_handed_push(pre.journal(), first);
    if r is Pending {
        let left = choose|left: Seq<TMuxer::OutboundSubstream>| #[trigger]
            NodeStream::all_pending(pre, post, left);
        let polls = pending_polls::<TMuxer>(attempts, left, 0);
        lemma_handed_add(asked, polls);
        lemma_handed_pending_polls::<TMuxer>(attempts, left, 0);
        assert(left.subrange(0, len) =~= left);
        assert(attempts.subrange(0, len) =~= attempts);
        if len > 0 {
            assert(attempts_of(post.pending()) =~= left.remove(0).push(left[0]));
            lemma_removed_item(left, 0);
            to_multiset_build(left.remove(0), left[0]);
        } else {
            assert(attempts_of(post.pending()) =~= left);
        }
        assert(attempts_handed_out(calls) =~= attempts_handed_in(calls).add(
            attempts_of(post.pending()).to_multiset(),
        ));
    } else if NodeStream::inbound_decided(pre, post, r) {
        lemma_handed_push(pre.journal(), calls.last());
        assert(attempts_handed_out(calls) =~= attempts_handed_in(calls).add(
            attempts_of(post.pending()).to_multiset(),
        ));
    } else {
        let (n, left) = choose|n: int, left: Seq<TMuxer::OutboundSubstream>| #[trigger]
            NodeStream::settled_at(pre, post, n, left, r);
        let polls = pending_polls::<TMuxer>(attempts, left, n + 1);
        let scanned = asked + polls;
        let asked_attempt = calls[calls.len() - 2];
        lemma_handed_add(asked, polls);
        lemma_handed_pending_polls::<TMuxer>(attempts, left, n + 1);
        assert(calls =~= calls.subrange(0, scanned.len() as int).push(asked_attempt).push(
            calls.last(),
        ));
        lemma_handed_push(scanned, asked_attempt);
        lemma_handed_push(scanned.push(asked_attempt), calls.last());
        lemma_split_at(attempts, n);
        lemma_split_at(left, n);
        assert(left.subrange(0, n) =~= attempts.subrange(0, n));
        assert(attempts_of(post.pending()) =~= left.remove(n));
        assert(attempts_handed_out(calls) =~= attempts_handed_in(calls).add(
            attempts_of(post.pending()).to_multiset(),
        ));
    }
}

/// A poll answers an outbound event exactly when the multiplexer settled an
/// attempt with a substream in it. It gives an attempt back exactly when it
/// settled one, with a substream or a failure, opens nothing, and does not
/// ask to close the connection. So it keeps the node stream well formed.
pub proof fn lemma_poll_reports_each_success<TMuxer: StreamMuxer, TUserData>(
    pre: NodeStream<TMuxer, TUserData>,
    post: NodeStream<TMuxer, TUserData>,
    r: Poll<Result<NodeEvent<TMuxer, TUserData>, IoError>>,
)
    requires
        NodeStream::polled(pre, post, r),
    ensures
        attempts_succeeded(post.journal()) == attempts_succeeded(pre.journal())
            + if is_outbound_event(r) {
            1nat
        } else {
            0nat
        },
        attempts_destroyed(post.journal()) + post.pending().len() == attempts_destroyed(
            pre.journal(),
        ) + pre.pending().len(),
        attempts_opened(post.journal()) == attempts_opened(pre.journal()),
        closes(post.journal()) == closes(pre.journal()),
        pre.wf() ==> post.wf(),
{
    let calls = post.journal();
    let attempts = attempts_of(pre.pending());
    let asked = pre.journal().push(MuxerCall::PollInbound { answer: Poll::Pending });
    lemma_counts_push(pre.journal(), MuxerCall::PollInbound { answer: Poll::Pending });
    if pre.accounted() {
        lemma_poll_keeps_account(pre, post, r);
    }
    if r is Pending {
        let left = choose|left: Seq<TMuxer::OutboundSubstream>| #[trigger]
            NodeStream::all_pending(pre, post, left);
        lemma_counts_add(asked, pending_polls::<TMuxer>(attempts, left, 0));
        lemma_counts_pending_polls::<TMuxer>(attempts, left, 0);
    } else if NodeStream::inbound_decided(pre, post, r) {
        lemma_counts_push(pre.journal(), calls.last());
    } else {
        let (n, left) = choose|n: int, left: Seq<TMuxer::OutboundSubstream>| #[trigger]
            NodeStream::settled_at(pre, post, n, left, r);
        let scanned = asked + pending_polls::<TMuxer>(attempts, left, n + 1);
        let asked_attempt = calls[calls.len() - 2];
        lemma_counts_add(asked, pending_polls::<TMuxer>(attempts, left, n + 1));
        lemma_counts_pending_polls::<TMuxer>(attempts, left, n + 1);
        assert(calls =~= calls.subrange(0, scanned.len() as int).push(asked_attempt).push(
            calls.last(),
        ));
        lemma_counts_push(scanned, asked_attempt);
        lemma_counts_push(scanned.push(asked_attempt), calls.last());
    }
}

/// Over any run of operations, the outbound events that the polls answered
/// are as many as the attempts that the multiplexer settled with a substream:
/// each success is reported once, and nothing else is reported as one. A run
/// that starts well formed stays so, and the multiplexer is never asked to
/// close the connection.
pub proof fn lemma_events_are_the_successes<TMuxer: StreamMuxer, TUserData>(
    states: Seq<NodeStream<TMuxer, TUserData>>,
    steps: Seq<Step<TMuxer, TUserData>>,
)
    requires
        is_run(states, steps),
    ensures
        attempts_succeeded(states.last().journal()) == attempts_succeeded(states[0].journal())
            + outbound_events(steps),
        closes(states.last().journal()) == closes(states[0].journal()),
        states[0].wf() ==> states.last().wf(),
    decreases steps.len(),
{
    if steps.len() > 0 {
        let last = steps.len() - 1;
        assert(is_run(states.drop_last(), steps.drop_last())) by {
            assert forall|i: int| 0 <= i < steps.drop_last().len() implies stepped(
                states.drop_last()[i],
                states.drop_last()[i + 1],
                #[trigger] steps.drop_last()[i],
            ) by {
                assert(stepped(states[i], states[i + 1], steps[i]));
            }
        }
        lemma_events_are_the_successes(states.drop_last(), steps.drop_last());
        let pre = states[last];
        let post = states[last + 1];
        match steps[last] {
            Step::Open(user_data) => {
                lemma_counts_push(
                    pre.journal(),
                    MuxerCall::OpenOutbound { attempt: post.pending().last().1 },
                );
                lemma_open_keeps_account(pre, post, user_data);
            },
            Step::Poll(r) => {
                lemma_poll_reports_each_success(pre, post, r);
            },
            Step::Cancel(out) => {
                lemma_cancel_keeps_account(pre, post, out);
                lemma_counts_add(
                    pre.journal(),
                    destroy_calls::<TMuxer>(attempts_of(pre.pending())),
                );
                lemma_counts_destroy_calls::<TMuxer>(attempts_of(pre.pending()));
            },
            Step::Drop => {
                let out = choose|out: Seq<TUserData>| #[trigger]
                    NodeStream::cancelled(pre, post, out);
                lemma_cancel_keeps_account(pre, post, out);
                lemma_counts_add(
                    pre.journal(),
                    destroy_calls::<TMuxer>(attempts_of(pre.pending())),
                );
                lemma_counts_destroy_calls::<TMuxer>(attempts_of(pre.pending()));
            },
        }
    }
}

/// Nothing leaks: when a run that started well formed ends with a
/// cancellation or with the drop of the node stream, no attempt is open, as
/// many attempts have been given back as were ever opened, the attempts that
/// the multiplexer handed out are, as a bag, the attempts that it was handed
/// back, none missing and none twice, and the multiplexer was never asked to
/// close the connection.
pub proof fn lemma_nothing_is_left_after_drop<TMuxer: StreamMuxer, TUserData>(
    states: Seq<NodeStream<TMuxer, TUserData>>,
    steps: Seq<Step<TMuxer, TUserData>>,
)
    requires
        is_run(states, steps),
        states[0].wf(),
        steps.len() > 0,
        steps.last() is Drop || steps.last() is Cancel,
    ensures
        states.last().pending().len() == 0,
        attempts_destroyed(states.last().journal()) == attempts_opened(states.last().journal()),
        attempts_handed_in(states.last().journal()) == attempts_handed_out(
            states.last().journal(),
        ),
        closes(states.last().journal()) == 0,
{
    broadcast use group_multiset_axioms;

    lemma_events_are_the_successes(states, steps);
    let last = steps.len() - 1;
    let end = states.last();
    attempts_of(end.pending()).to_multiset_ensures();
}

/// The close operation succeeds exactly when the multiplexer's close does,
/// fails exactly when it fails, and is pending exactly when it is pending.
pub proof fn lemma_close_answers_as_the_multiplexer<TMuxer: StreamMuxer>(
    answer: Poll<Result<(), TMuxer::Error>>,
    r: Poll<Result<(), IoError>>,
)
    requires
        Close::<TMuxer>::answered(answer, r),
    ensures
        r matches Poll::Ready(Ok(_)) <==> answer matches Poll::Ready(Ok(_)),
        r matches Poll::Ready(Err(_)) <==> answer matches Poll::Ready(Err(_)),
        r is Pending <==> answer is Pending,
{
}

/// A poll never alters the data of an attempt, and takes data out of the bag
/// of open attempts only with the attempt that it settles: an outbound event
/// carries the data of an attempt that was open and removes exactly that one;
/// a failure removes at most one; an inbound event or `Pending` removes none.
pub proof fn lemma_poll_conserves_user_data<TMuxer: StreamMuxer, TUserData>(
    pre: NodeStream<TMuxer, TUserData>,
    post: NodeStream<TMuxer, TUserData>,
    r: Poll<Result<NodeEvent<TMuxer, TUserData>, IoError>>,
)
    requires
        NodeStream::polled(pre, post, r),
    ensures
        match r {
            Poll::Ready(Ok(NodeEvent::InboundSubstream { .. })) => user_data_of(post.pending())
                == user_data_of(pre.pending()),
            Poll::Ready(Ok(NodeEvent::OutboundSubstream { user_data, .. })) => {
                &&& user_data_of(pre.pending()).contains(user_data)
                &&& user_data_of(pre.pending()).to_multiset() == user_data_of(
                    post.pending(),
                ).to_multiset().insert(user_data)
            },
            Poll::Ready(Err(_)) => {
                ||| user_data_of(post.pending()) == user_data_of(pre.pending())
                ||| exists|n: int|
                    0 <= n < pre.pending().len() && user_data_of(pre.pending()).to_multiset()
                        == user_data_of(post.pending()).to_multiset().insert(
                        #[trigger] pre.pending()[n].0,
                    )
            },
            Poll::Pending => user_data_of(post.pending()).to_multiset() == user_data_of(
                pre.pending(),
            ).to_multiset(),
        },
{
    broadcast use group_multiset_axioms;

    let tags = user_data_of(pre.pending());
    if r is Pending {
        let left = choose|left: Seq<TMuxer::OutboundSubstream>| #[trigger]
            NodeStream::all_pending(pre, post, left);
        if tags.len() > 0 {
            assert(user_data_of(post.pending()) =~= tags.remove(0).push(tags[0]));
            lemma_removed_item(tags, 0);
            to_multiset_build(tags.remove(0), tags[0]);
        } else {
            assert(user_data_of(post.pending()) =~= tags);
        }
    } else if !NodeStream::inbound_decided(pre, post, r) {
        let (n, left) = choose|n: int, left: Seq<TMuxer::OutboundSubstream>| #[trigger]
            NodeStream::settled_at(pre, post, n, left, r);
        assert(user_data_of(post.pending()) =~= tags.remove(n));
        lemma_removed_item(tags, n);
    }
}

/// Taking one item out of a list takes it out of the bag of its items.
proof fn lemma_removed_item<T>(list: Seq<T>, n: int)
    requires
        0 <= n < list.len(),
    ensures
        list.contains(list[n]),
        list.to_multiset() == list.remove(n).to_multiset().insert(list[n]),
{
    broadcast use group_multiset_axioms;

    to_multiset_remove(list, n);
    list.to_multiset_ensures();
}

/// An attempt that is alone comes back with its own data: when an attempt
/// is opened while no other is open, an outbound event of the next poll
/// carries the data it was opened with, and no attempt is open after it.
pub proof fn lemma_single_attempt_carries_its_data<TMuxer: StreamMuxer, TUserData>(
    pre: NodeStream<TMuxer, TUserData>,
    open: NodeStream<TMuxer, TUserData>,
    data: TUserData,
    post: NodeStream<TMuxer, TUserData>,
    r: Poll<Result<NodeEvent<TMuxer, TUserData>, IoError>>,
)
    requires
        pre.pending().len() == 0,
        NodeStream::opened(pre, open, data),
        NodeStream::polled(open, post, r),
    ensures
        r matches Poll::Ready(Ok(NodeEvent::OutboundSubstream { user_data, .. })) ==> {
            &&& user_data == data
            &&& post.pending().len() == 0
        },
{
}

/// Cancelling gives every open attempt back exactly once, first to last,
/// returns one datum for each, opens nothing and does not ask to close the
/// connection.
pub proof fn lemma_cancel_gives_each_attempt_back_once<TMuxer: StreamMuxer, TUserData>(
    pre: NodeStream<TMuxer, TUserData>,
    post: NodeStream<TMuxer, TUserData>,
    out: Seq<TUserData>,
)
    requires
        NodeStream::cancelled(pre, post, out),
    ensures
        out.len() == pre.pending().len(),
        post.journal().len() == pre.journal().len() + pre.pending().len(),
        forall|k: int|
            0 <= k < pre.pending().len() ==> #[trigger] post.journal()[pre.journal().len() + k]
                == (MuxerCall::<TMuxer>::DestroyOutbound { attempt: pre.pending()[k].1 }),
        attempts_destroyed(post.journal()) == attempts_destroyed(pre.journal())
            + pre.pending().len(),
        attempts_opened(post.journal()) == attempts_opened(pre.journal()),
        closes(post.journal()) == closes(pre.journal()),
{
    lemma_counts_add(pre.journal(), destroy_calls::<TMuxer>(attempts_of(pre.pending())));
    lemma_counts_destroy_calls::<TMuxer>(attempts_of(pre.pending()));
}

/// After a cancellation the next poll has no outbound event to report: it
/// asks for an inbound substream and nothing else, and no attempt is open
/// after it.
pub proof fn lemma_no_outbound_event_after_cancel<TMuxer: StreamMuxer, TUserData>(
    pre: NodeStream<TMuxer, TUserData>,
    cancelled: NodeStream<TMuxer, TUserData>,
    out: Seq<TUserData>,
    post: NodeStream<TMuxer, TUserData>,
    r: Poll<Result<NodeEvent<TMuxer, TUserData>, IoError>>,
)
    requires
        NodeStream::cancelled(pre, cancelled, out),
        NodeStream::polled(cancelled, post, r),
    ensures
        !(r matches Poll::Ready(Ok(NodeEvent::OutboundSubstream { .. }))),
        post.pending().len() == 0,
        post.journal().len() == cancelled.journal().len() + 1,
        post.journal().drop_last() == pre.journal() + destroy_calls::<TMuxer>(
            attempts_of(pre.pending()),
        ),
        post.journal().last() is PollInbound,
{
}

/// Every poll begins by asking the multiplexer for an inbound substream, and
/// when that brings an inbound event no attempt has been looked at: the
/// inbound side comes first.
pub proof fn lemma_poll_asks_inbound_first<TMuxer: StreamMuxer, TUserData>(
    pre: NodeStream<TMuxer, TUserData>,
    post: NodeStream<TMuxer, TUserData>,
    r: Poll<Result<NodeEvent<TMuxer, TUserData>, IoError>>,
)
    requires
        NodeStream::polled(pre, post, r),
    ensures
        post.journal().len() > pre.journal().len(),
        post.journal().subrange(0, pre.journal().len() as int) == pre.journal(),
        post.journal()[pre.journal().len() as int] is PollInbound,
        r matches Poll::Ready(Ok(NodeEvent::InboundSubstream { .. })) ==> {
            &&& post.pending() == pre.pending()
            &&& post.journal().len() == pre.journal().len() + 1
        },
{
    let base = pre.journal().len() as int;
    let asked = pre.journal().push(MuxerCall::PollInbound { answer: Poll::Pending });
    if r is Ready && !NodeStream::inbound_decided(pre, post, r) {
        let (n, left) = choose|n: int, left: Seq<TMuxer::OutboundSubstream>| #[trigger]
            NodeStream::settled_at(pre, post, n, left, r);
        let scanned = asked + pending_polls::<TMuxer>(attempts_of(pre.pending()), left, n + 1);
        assert forall|k: int| 0 <= k <= base implies post.journal()[k] == asked[k] by {
            assert(post.journal().subrange(0, scanned.len() as int)[k] == scanned[k]);
        }
        assert(post.journal()[base] == asked[base]);
    }
}

/// A poll reports as soon as the multiplexer answers `Ready`, and only then:
/// it answers `Pending` exactly when every call of the poll was answered
/// `Pending`, and when it answers `Ready` the call that was answered `Ready`
/// is the only one, and but for giving an attempt back the last.
pub proof fn lemma_poll_stops_at_first_ready_answer<TMuxer: StreamMuxer, TUserData>(
    pre: NodeStream<TMuxer, TUserData>,
    post: NodeStream<TMuxer, TUserData>,
    r: Poll<Result<NodeEvent<TMuxer, TUserData>, IoError>>,
)
    requires
        NodeStream::polled(pre, post, r),
    ensures
        pre.journal().len() < post.journal().len(),
        r is Pending ==> forall|k: int|
            pre.journal().len() <= k < post.journal().len() ==> !answered_ready(
                #[trigger] post.journal()[k],
            ),
        r is Ready ==> exists|at: int|
            {
                &&& pre.journal().len() <= at < post.journal().len()
                &&& #[trigger] answered_ready(post.journal()[at])
                &&& at >= post.journal().len() - 2
                &&& forall|k: int|
                    pre.journal().len() <= k < post.journal().len() && k != at ==> !answered_ready(
                        #[trigger] post.journal()[k],
                    )
            },
{
    let base = pre.journal().len() as int;
    let calls = post.journal();
    let asked = pre.journal().push(MuxerCall::PollInbound { answer: Poll::Pending });
    if r is Ready && NodeStream::inbound_decided(pre, post, r) {
        assert(answered_ready(calls[base]));
    } else if r is Ready {
        let (n, left) = choose|n: int, left: Seq<TMuxer::OutboundSubstream>| #[trigger]
            NodeStream::settled_at(pre, post, n, left, r);
        let scanned = asked + pending_polls::<TMuxer>(attempts_of(pre.pending()), left, n + 1);
        let at = calls.len() - 2;
        assert(answered_ready(calls[at]));
        assert forall|k: int| base <= k < calls.len() && k != at implies !answered_ready(
            #[trigger] calls[k],
        ) by {
            if k < scanned.len() {
                assert(calls.subrange(0, scanned.len() as int)[k] == scanned[k]);
            }
        }
    }
}

} // verus!
