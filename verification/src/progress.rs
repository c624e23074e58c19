//! What the polls of a node stream report when the multiplexer answers by a
//! fixed rule: no inbound substream, a substream for some attempts whenever
//! they are polled, and `Pending` for the others.

use crate::journal::attempts_of;
use crate::journal::made_on;
use crate::journal::pending_polls;
use crate::journal::MuxerCall;
use crate::laws::is_outbound_event;
use crate::muxing::StreamMuxer;
use crate::node::NodeEvent;
use crate::node::NodeStream;
use std::io::Error as IoError;
use std::task::Context;
use std::task::Poll;
use vstd::multiset::group_multiset_axioms;
use vstd::multiset::Multiset;
use vstd::prelude::*;

verus! {

/// The multiplexer never has an inbound substream: whatever `poll_inbound`
/// returns on it is `Pending`.
pub open spec fn inbound_stays_pending<TMuxer: StreamMuxer>(muxer: TMuxer) -> bool {
    forall|cx: &mut Context<'_>, answer: Poll<Result<TMuxer::Substream, TMuxer::Error>>| #[trigger]
        call_ensures(TMuxer::poll_inbound, (&muxer, cx), answer) ==> answer is Pending
}

/// The multiplexer settles the attempts that `ready` holds of with a
/// substream whenever they are polled, and answers `Pending` for the others.
pub open spec fn settles_the_ready<TMuxer: StreamMuxer>(
    muxer: TMuxer,
    ready: spec_fn(TMuxer::OutboundSubstream) -> bool,
) -> bool {
    forall|
        cx: &mut Context<'_>,
        s: &mut TMuxer::OutboundSubstream,
        answer: Poll<Result<TMuxer::Substream, TMuxer::Error>>,
    | #[trigger]
        call_ensures(TMuxer::poll_outbound, (&muxer, cx, s), answer) ==> if ready(*s) {
            answer matches Poll::Ready(Ok(_))
        } else {
            answer is Pending
        }
}

/// Every poll of an attempt that `journal` records from the call at `from`
/// on left the attempt as it was handed in.
pub open spec fn attempts_left_alone<TMuxer: StreamMuxer>(
    journal: Seq<MuxerCall<TMuxer>>,
    from: int,
) -> bool {
    forall|k: int|
        from <= k < journal.len() ==> (#[trigger] journal[k] matches MuxerCall::PollOutbound {
            attempt,
            left,
            ..
        } ==> left == attempt)
}

/// How many of `attempts` are ready.
pub open spec fn ready_count<H>(attempts: Seq<H>, ready: spec_fn(H) -> bool) -> nat
    decreases attempts.len(),
{
    if attempts.len() == 0 {
        0
    } else {
        ready_count(attempts.drop_last(), ready) + if ready(attempts.last()) {
            1nat
        } else {
            0nat
        }
    }
}

/// One more attempt in a list adds one to the count if it is ready.
proof fn lemma_ready_insert<H>(attempts: Seq<H>, at: int, attempt: H, ready: spec_fn(H) -> bool)
    requires
        0 <= at <= attempts.len(),
    ensures
        ready_count(attempts.insert(at, attempt), ready) == ready_count(attempts, ready)
            + if ready(attempt) {
            1nat
        } else {
            0nat
        },
    decreases attempts.len(),
{
    let longer = attempts.insert(at, attempt);
    if at == attempts.len() {
        assert(longer.drop_last() =~= attempts);
    } else {
        lemma_ready_insert(attempts.drop_last(), at, attempt, ready);
        assert(longer.drop_last() =~= attempts.drop_last().insert(at, attempt));
    }
}

/// Taking an attempt out of a list takes one from the count if it is ready.
proof fn lemma_ready_remove<H>(attempts: Seq<H>, at: int, ready: spec_fn(H) -> bool)
    requires
        0 <= at < attempts.len(),
    ensures
        ready_count(attempts, ready) == ready_count(attempts.remove(at), ready) + if ready(
            attempts[at],
        ) {
            1nat
        } else {
            0nat
        },
{
    lemma_ready_insert(attempts.remove(at), at, attempts[at], ready);
    assert(attempts.remove(at).insert(at, attempts[at]) =~= attempts);
}

/// A list without a ready attempt counts none, and a list that counts none
/// holds none.
proof fn lemma_ready_none<H>(attempts: Seq<H>, ready: spec_fn(H) -> bool)
    ensures
        ready_count(attempts, ready) == 0 <==> forall|k: int|
            0 <= k < attempts.len() ==> !ready(#[trigger] attempts[k]),
    decreases attempts.len(),
{
    if attempts.len() > 0 {
        lemma_ready_none(attempts.drop_last(), ready);
        if ready_count(attempts, ready) == 0 {
            assert forall|k: int| 0 <= k < attempts.len() implies !ready(
                #[trigger] attempts[k],
            ) by {
                if k < attempts.len() - 1 {
                    assert(attempts.drop_last()[k] == attempts[k]);
                }
            }
        } else if forall|k: int| 0 <= k < attempts.len() ==> !ready(#[trigger] attempts[k]) {
            assert forall|k: int| 0 <= k < attempts.drop_last().len() implies !ready(
                #[trigger] attempts.drop_last()[k],
            ) by {
                assert(attempts.drop_last()[k] == attempts[k]);
            }
        }
    }
}

/// With a multiplexer that answers by the fixed rule, a poll reports a ready
/// attempt at once: while a ready attempt is open the poll answers the
/// outbound event of one, with the data it was opened with, and that attempt
/// leaves the list, so one ready attempt less is open; when none is open the
/// poll answers `Pending` and none is open after it.
pub proof fn lemma_poll_reports_a_ready_attempt<TMuxer: StreamMuxer, TUserData>(
    pre: NodeStream<TMuxer, TUserData>,
    post: NodeStream<TMuxer, TUserData>,
    r: Poll<Result<NodeEvent<TMuxer, TUserData>, IoError>>,
    ready: spec_fn(TMuxer::OutboundSubstream) -> bool,
)
    requires
        NodeStream::polled(pre, post, r),
        inbound_stays_pending(pre.muxer()),
        settles_the_ready(pre.muxer(), ready),
        attempts_left_alone(post.journal(), pre.journal().len() as int),
    ensures
        ready_count(attempts_of(pre.pending()), ready) == 0 ==> {
            &&& r is Pending
            &&& post.pending().len() == pre.pending().len()
            &&& ready_count(attempts_of(post.pending()), ready) == 0
        },
        ready_count(attempts_of(pre.pending()), ready) > 0 ==> {
            &&& r matches Poll::Ready(Ok(NodeEvent::OutboundSubstream { user_data, .. }))
            &&& exists|n: int|
                {
                    &&& 0 <= n < pre.pending().len()
                    &&& ready(#[trigger] pre.pending()[n].1)
                    &&& user_data == pre.pending()[n].0
                    &&& post.pending() == pre.pending().remove(n)
                }
            &&& ready_count(attempts_of(post.pending()), ready) + 1 == ready_count(
                attempts_of(pre.pending()),
                ready,
            )
        },
{
    let muxer = pre.muxer();
    let calls = post.journal();
    let base = pre.journal().len() as int;
    let open = pre.pending();
    let attempts = attempts_of(open);
    let len = attempts.len() as int;
    lemma_ready_none(attempts, ready);
    if r is Pending {
        let left = choose|left: Seq<TMuxer::OutboundSubstream>| #[trigger]
            NodeStream::all_pending(pre, post, left);
        assert forall|k: int| 0 <= k < len implies !ready(#[trigger] attempts[k]) && left[k]
            == attempts[k] by {
            let at = base + 1 + (len - 1 - k);
            assert(made_on(muxer, calls[at]));
        }
        assert(left =~= attempts);
        if len > 0 {
            lemma_ready_remove(attempts, 0, ready);
            assert(attempts_of(post.pending()).drop_last() =~= attempts.remove(0));
        }
    } else if !NodeStream::inbound_decided(pre, post, r) {
        let (n, left) = choose|n: int, left: Seq<TMuxer::OutboundSubstream>| #[trigger]
            NodeStream::settled_at(pre, post, n, left, r);
        let polls = pending_polls::<TMuxer>(attempts, left, n + 1);
        let scanned_len = base + 1 + (len - n - 1);
        assert forall|k: int| n < k < len implies left[k] == attempts[k] by {
            let at = base + 1 + (len - 1 - k);
            assert(calls.subrange(0, scanned_len)[at] == polls[len - 1 - k]);
        }
        assert(attempts_of(post.pending()) =~= attempts.remove(n));
        lemma_ready_remove(attempts, n, ready);
    }
}

/// With a multiplexer that answers by the fixed rule, the polls report the
/// ready attempts in turn: when `k` ready attempts are open, each of the
/// first `k` polls answers one outbound event and every later poll answers
/// `Pending`. After `i` polls the ready attempts that are open are `k - i`,
/// or none.
pub proof fn lemma_ready_attempts_are_reported_in_turn<TMuxer: StreamMuxer, TUserData>(
    states: Seq<NodeStream<TMuxer, TUserData>>,
    answers: Seq<Poll<Result<NodeEvent<TMuxer, TUserData>, IoError>>>,
    ready: spec_fn(TMuxer::OutboundSubstream) -> bool,
)
    requires
        states.len() == answers.len() + 1,
        forall|i: int|
            0 <= i < answers.len() ==> NodeStream::polled(
                states[i],
                states[i + 1],
                #[trigger] answers[i],
            ),
        forall|i: int|
            0 <= i < answers.len() ==> attempts_left_alone(
                (#[trigger] states[i + 1]).journal(),
                states[i].journal().len() as int,
            ),
        inbound_stays_pending(states[0].muxer()),
        settles_the_ready(states[0].muxer(), ready),
    ensures
        forall|i: int|
            0 <= i < answers.len() ==> (is_outbound_event(#[trigger] answers[i]) <==> i
                < ready_count(attempts_of(states[0].pending()), ready)),
        forall|i: int|
            0 <= i < answers.len() ==> (#[trigger] answers[i] is Pending <==> i >= ready_count(
                attempts_of(states[0].pending()),
                ready,
            )),
        forall|i: int|
            0 <= i <= answers.len() ==> ready_count(
                attempts_of((#[trigger] states[i]).pending()),
                ready,
            ) == if i < ready_count(attempts_of(states[0].pending()), ready) {
                ready_count(attempts_of(states[0].pending()), ready) - i
            } else {
                0
            },
        forall|i: int| 0 <= i <= answers.len() ==> (#[trigger] states[i]).muxer() == states[0].muxer(),
    decreases answers.len(),
{
    if answers.len() > 0 {
        let last = answers.len() - 1;
        let shorter = states.drop_last();
        let earlier = answers.drop_last();
        assert forall|i: int| 0 <= i < earlier.len() implies NodeStream::polled(
            shorter[i],
            shorter[i + 1],
            #[trigger] earlier[i],
        ) by {
            assert(NodeStream::polled(states[i], states[i + 1], answers[i]));
        }
        assert forall|i: int| 0 <= i < earlier.len() implies attempts_left_alone(
            (#[trigger] shorter[i + 1]).journal(),
            shorter[i].journal().len() as int,
        ) by {
            assert(attempts_left_alone(
                states[i + 1].journal(),
                states[i].journal().len() as int,
            ));
        }
        lemma_ready_attempts_are_reported_in_turn(shorter, earlier, ready);
        let pre = states[last];
        let post = states[last + 1];
        assert(shorter[last] == pre);
        lemma_poll_reports_a_ready_attempt(pre, post, answers[last], ready);
        assert forall|i: int| 0 <= i < answers.len() implies (is_outbound_event(
            #[trigger] answers[i],
        ) <==> i < ready_count(attempts_of(states[0].pending()), ready)) by {
            if i < last {
                assert(earlier[i] == answers[i]);
            }
        }
        assert forall|i: int| 0 <= i < answers.len() implies (#[trigger] answers[i] is Pending
            <==> i >= ready_count(attempts_of(states[0].pending()), ready)) by {
            if i < last {
                assert(earlier[i] == answers[i]);
            }
        }
        assert forall|i: int| 0 <= i <= answers.len() implies ready_count(
            attempts_of((#[trigger] states[i]).pending()),
            ready,
        ) == if i < ready_count(attempts_of(states[0].pending()), ready) {
            ready_count(attempts_of(states[0].pending()), ready) - i
        } else {
            0
        } by {
            if i <= last {
                assert(shorter[i] == states[i]);
            }
        }
        assert forall|i: int| 0 <= i <= answers.len() implies (#[trigger] states[i]).muxer()
            == states[0].muxer() by {
            if i <= last {
                assert(shorter[i] == states[i]);
            }
        }
    }
}

/// The data of the open attempts that are ready, as a bag.
pub open spec fn ready_data<D, H>(pending: Seq<(D, H)>, ready: spec_fn(H) -> bool) -> Multiset<D>
    decreases pending.len(),
{
    if pending.len() == 0 {
        Multiset::empty()
    } else if ready(pending.last().1) {
        ready_data(pending.drop_last(), ready).insert(pending.last().0)
    } else {
        ready_data(pending.drop_last(), ready)
    }
}

/// The data that the outbound events among `answers` carry, as a bag.
pub open spec fn reported_data<TMuxer: StreamMuxer, TUserData>(
    answers: Seq<Poll<Result<NodeEvent<TMuxer, TUserData>, IoError>>>,
) -> Multiset<TUserData>
    decreases answers.len(),
{
    if answers.len() == 0 {
        Multiset::empty()
    } else if let Poll::Ready(Ok(NodeEvent::OutboundSubstream { user_data, .. })) = answers.last() {
        reported_data(answers.drop_last()).insert(user_data)
    } else {
        reported_data(answers.drop_last())
    }
}

/// One more open attempt adds its data to the bag if it is ready.
proof fn lemma_ready_data_insert<D, H>(
    pending: Seq<(D, H)>,
    at: int,
    entry: (D, H),
    ready: spec_fn(H) -> bool,
)
    requires
        0 <= at <= pending.len(),
    ensures
        ready_data(pending.insert(at, entry), ready) == if ready(entry.1) {
            ready_data(pending, ready).insert(entry.0)
        } else {
            ready_data(pending, ready)
        },
    decreases pending.len(),
{
    broadcast use group_multiset_axioms;

    let longer = pending.insert(at, entry);
    if at == pending.len() {
        assert(longer.drop_last() =~= pending);
    } else {
        lemma_ready_data_insert(pending.drop_last(), at, entry, ready);
        assert(longer.drop_last() =~= pending.drop_last().insert(at, entry));
    }
}

/// Without a ready attempt the bag of the ready data is empty.
proof fn lemma_ready_data_none<D, H>(pending: Seq<(D, H)>, ready: spec_fn(H) -> bool)
    requires
        forall|k: int| 0 <= k < pending.len() ==> !ready(#[trigger] pending[k].1),
    ensures
        ready_data(pending, ready) == Multiset::<D>::empty(),
    decreases pending.len(),
{
    if pending.len() > 0 {
        assert forall|k: int| 0 <= k < pending.drop_last().len() implies !ready(
            #[trigger] pending.drop_last()[k].1,
        ) by {
            assert(pending.drop_last()[k] == pending[k]);
        }
        lemma_ready_data_none(pending.drop_last(), ready);
    }
}

/// With a multiplexer that answers by the fixed rule, the outbound event of
/// a poll takes its data out of the bag of the ready data, and a poll that
/// answers `Pending` found that bag empty and leaves it so.
pub proof fn lemma_poll_reports_ready_data<TMuxer: StreamMuxer, TUserData>(
    pre: NodeStream<TMuxer, TUserData>,
    post: NodeStream<TMuxer, TUserData>,
    r: Poll<Result<NodeEvent<TMuxer, TUserData>, IoError>>,
    ready: spec_fn(TMuxer::OutboundSubstream) -> bool,
)
    requires
        NodeStream::polled(pre, post, r),
        inbound_stays_pending(pre.muxer()),
        settles_the_ready(pre.muxer(), ready),
        attempts_left_alone(post.journal(), pre.journal().len() as int),
    ensures
        r is Pending || is_outbound_event(r),
        r is Pending ==> {
            &&& ready_data(pre.pending(), ready) == Multiset::<TUserData>::empty()
            &&& ready_data(post.pending(), ready) == Multiset::<TUserData>::empty()
        },
        r matches Poll::Ready(Ok(NodeEvent::OutboundSubstream { user_data, .. })) ==> ready_data(
            pre.pending(),
            ready,
        ) == ready_data(post.pending(), ready).insert(user_data),
{
    lemma_poll_reports_a_ready_attempt(pre, post, r, ready);
    lemma_ready_none(attempts_of(pre.pending()), ready);
    lemma_ready_none(attempts_of(post.pending()), ready);
    if ready_count(attempts_of(pre.pending()), ready) == 0 {
        assert forall|k: int| 0 <= k < pre.pending().len() implies !ready(
            #[trigger] pre.pending()[k].1,
        ) by {
            assert(attempts_of(pre.pending())[k] == pre.pending()[k].1);
        }
        assert forall|k: int| 0 <= k < post.pending().len() implies !ready(
            #[trigger] post.pending()[k].1,
        ) by {
            assert(attempts_of(post.pending())[k] == post.pending()[k].1);
        }
        lemma_ready_data_none(pre.pending(), ready);
        lemma_ready_data_none(post.pending(), ready);
    } else if let Poll::Ready(Ok(NodeEvent::OutboundSubstream { user_data, .. })) = r {
        let n = choose|n: int|
            {
                &&& 0 <= n < pre.pending().len()
                &&& ready(#[trigger] pre.pending()[n].1)
                &&& user_data == pre.pending()[n].0
                &&& post.pending() == pre.pending().remove(n)
            };
        lemma_ready_data_insert(post.pending(), n, pre.pending()[n], ready);
        assert(post.pending().insert(n, pre.pending()[n]) =~= pre.pending());
    }
}

/// With a multiplexer that answers by the fixed rule, the data that the
/// polls report and the data of the ready attempts that are open still are
/// together the data of the attempts that were ready at the start. So once
/// as many polls were made as attempts were ready, the data reported are
/// exactly the data of those attempts.
pub proof fn lemma_reported_data_are_the_ready_data<TMuxer: StreamMuxer, TUserData>(
    states: Seq<NodeStream<TMuxer, TUserData>>,
    answers: Seq<Poll<Result<NodeEvent<TMuxer, TUserData>, IoError>>>,
    ready: spec_fn(TMuxer::OutboundSubstream) -> bool,
)
    requires
        states.len() == answers.len() + 1,
        forall|i: int|
            0 <= i < answers.len() ==> NodeStream::polled(
                states[i],
                states[i + 1],
                #[trigger] answers[i],
            ),
        forall|i: int|
            0 <= i < answers.len() ==> attempts_left_alone(
                (#[trigger] states[i + 1]).journal(),
                states[i].journal().len() as int,
            ),
        inbound_stays_pending(states[0].muxer()),
        settles_the_ready(states[0].muxer(), ready),
    ensures
        reported_data(answers).add(ready_data(states.last().pending(), ready)) == ready_data(
            states[0].pending(),
            ready,
        ),
        answers.len() >= ready_count(attempts_of(states[0].pending()), ready) ==> reported_data(
            answers,
        ) == ready_data(states[0].pending(), ready),
    decreases answers.len(),
{
    broadcast use group_multiset_axioms;

    lemma_ready_attempts_are_reported_in_turn(states, answers, ready);
    let start = ready_data(states[0].pending(), ready);
    if answers.len() > 0 {
        let last = answers.len() - 1;
        let shorter = states.drop_last();
        let earlier = answers.drop_last();
        assert forall|i: int| 0 <= i < earlier.len() implies NodeStream::polled(
            shorter[i],
            shorter[i + 1],
            #[trigger] earlier[i],
        ) by {
            assert(NodeStream::polled(states[i], states[i + 1], answers[i]));
        }
        assert forall|i: int| 0 <= i < earlier.len() implies attempts_left_alone(
            (#[trigger] shorter[i + 1]).journal(),
            shorter[i].journal().len() as int,
        ) by {
            assert(attempts_left_alone(
                states[i + 1].journal(),
                states[i].journal().len() as int,
            ));
        }
        lemma_reported_data_are_the_ready_data(shorter, earlier, ready);
        let pre = states[last];
        let post = states[last + 1];
        lemma_poll_reports_ready_data(pre, post, answers[last], ready);
    }
    if answers.len() >= ready_count(attempts_of(states[0].pending()), ready) {
        let end = states[answers.len() as int];
        lemma_ready_none(attempts_of(end.pending()), ready);
        assert forall|k: int| 0 <= k < end.pending().len() implies !ready(
            #[trigger] end.pending()[k].1,
        ) by {
            assert(attempts_of(end.pending())[k] == end.pending()[k].1);
        }
        lemma_ready_data_none(end.pending(), ready);
    }
}

} // verus!
