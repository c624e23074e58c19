//! The node stream: the event source of one connection.
//!
//! A poll drains at most one event. It asks the multiplexer for an inbound
//! substream first, and scans the open outbound attempts only when there is
//! none. Dropping the node stream gives every open attempt back to the
//! multiplexer and leaves the connection open; only the close operation tells
//! the remote.

use crate::journal::attempts_destroyed;
use crate::journal::attempts_handed_in;
use crate::journal::attempts_handed_out;
use crate::journal::attempts_of;
use crate::journal::attempts_opened;
use crate::journal::closes;
use crate::journal::destroy_calls;
use crate::journal::lemma_counts_add;
use crate::journal::lemma_counts_destroy_calls;
use crate::journal::lemma_counts_push;
use crate::journal::made_from;
use crate::journal::made_on;
use crate::journal::moved_to_end;
use crate::journal::pending_polls;
use crate::journal::requeued;
use crate::journal::user_data_of;
use crate::journal::MuxerCall;
use crate::laws::lemma_cancel_keeps_account;
use crate::laws::lemma_fresh_is_accounted;
use crate::laws::lemma_open_keeps_account;
use crate::laws::lemma_poll_reports_each_success;
use crate::muxing::substream_from_ref;
use crate::muxing::StreamMuxer;
pub use crate::muxing::Substream;
use crate::std_types::converted;
use crate::std_types::share;
use std::io::Error as IoError;
use std::sync::Arc;
use std::task::Context;
use std::task::Poll;
use vstd::prelude::*;

verus! {

/// Handles a node: receives the substreams that the remote opens and opens
/// new ones.
///
/// Dropping it gives the open attempts back to the multiplexer. The
/// substreams that it produced go on working.
pub struct NodeStream<TMuxer: StreamMuxer, TUserData> {
    /// The multiplexer, shared with every substream and with the close
    /// operation.
    muxer: Arc<TMuxer>,
    /// The attempts that are open, each with the data it was opened with.
    outbound_substreams: Vec<(TUserData, TMuxer::OutboundSubstream)>,
    /// The calls made on the multiplexer so far.
    journal: Ghost<Seq<MuxerCall<TMuxer>>>,
}

/// Tells the remote that the connection is closed.
pub struct Close<TMuxer: StreamMuxer> {
    /// The multiplexer to close.
    muxer: Arc<TMuxer>,
    /// The calls made on the multiplexer so far, those of the node stream
    /// included.
    journal: Ghost<Seq<MuxerCall<TMuxer>>>,
}

/// What can happen on a node stream.
pub enum NodeEvent<TMuxer: StreamMuxer, TUserData> {
    /// The remote opened a substream.
    InboundSubstream {
        /// The new substream.
        substream: Substream<TMuxer>,
    },
    /// An attempt to open a substream has succeeded.
    OutboundSubstream {
        /// The data that was handed to `open_substream`.
        user_data: TUserData,
        /// The new substream.
        substream: Substream<TMuxer>,
    },
}

/// Names an attempt to open a substream.
#[derive(Debug, Copy, Clone, Hash, PartialEq, Eq, PartialOrd, Ord)]
pub struct OutboundSubstreamId(usize);

impl<TMuxer: StreamMuxer, TUserData> NodeStream<TMuxer, TUserData> {
    /// The attempts that are open, each with the data it was opened with.
    pub closed spec fn pending(&self) -> Seq<(TUserData, TMuxer::OutboundSubstream)> {
        self.outbound_substreams@
    }

    /// The multiplexer.
    pub closed spec fn muxer(&self) -> TMuxer {
        *self.muxer
    }

    /// The calls made on the multiplexer so far, oldest first.
    pub closed spec fn journal(&self) -> Seq<MuxerCall<TMuxer>> {
        self.journal@
    }

    /// Every attempt that the multiplexer handed to the node stream, when it
    /// opened it or when it left it after a poll, is open still or was handed
    /// back to the multiplexer, for a poll or for good, and each once.
    pub open spec fn accounted(&self) -> bool {
        attempts_handed_out(self.journal()) == attempts_handed_in(self.journal()).add(
            attempts_of(self.pending()).to_multiset(),
        )
    }

    /// Every attempt that was opened is open still or has been given back,
    /// each attempt is accounted for, and the multiplexer has not been asked
    /// to close the connection.
    pub open spec fn wf(&self) -> bool {
        &&& attempts_opened(self.journal()) == self.pending().len() + attempts_destroyed(
            self.journal(),
        )
        &&& self.accounted()
        &&& closes(self.journal()) == 0
    }

    /// `post` is `pre` after one more attempt was opened for `user_data`: the
    /// multiplexer handed out an attempt, which joined the open ones at the
    /// end.
    pub open spec fn opened(pre: Self, post: Self, user_data: TUserData) -> bool {
        &&& post.muxer() == pre.muxer()
        &&& post.pending().len() == pre.pending().len() + 1
        &&& post.pending() == pre.pending().push((user_data, post.pending().last().1))
        &&& post.journal() == pre.journal().push(
            MuxerCall::OpenOutbound { attempt: post.pending().last().1 },
        )
        &&& made_from(pre.muxer(), post.journal(), pre.journal().len() as int)
    }

    /// `post` is `pre` after every open attempt was given back to the
    /// multiplexer, first to last, and `out` is their data in the same order.
    pub open spec fn cancelled(pre: Self, post: Self, out: Seq<TUserData>) -> bool {
        &&& post.muxer() == pre.muxer()
        &&& post.pending() == Seq::<(TUserData, TMuxer::OutboundSubstream)>::empty()
        &&& out == user_data_of(pre.pending())
        &&& post.journal() == pre.journal() + destroy_calls::<TMuxer>(
            attempts_of(pre.pending()),
        )
        &&& made_from(pre.muxer(), post.journal(), pre.journal().len() as int)
    }

    /// `r` is what a poll makes of the multiplexer's `answer` to the inbound
    /// poll: a substream becomes the inbound event, bound to `muxer`; a
    /// failure is handed on, converted; `Pending` stays `Pending`.
    pub open spec fn inbound_answered(
        muxer: TMuxer,
        answer: Poll<Result<TMuxer::Substream, TMuxer::Error>>,
        r: Poll<Result<NodeEvent<TMuxer, TUserData>, IoError>>,
    ) -> bool {
        match answer {
            Poll::Pending => r is Pending,
            Poll::Ready(Ok(s)) => {
                &&& r matches Poll::Ready(Ok(NodeEvent::InboundSubstream { substream }))
                &&& substream.shared_muxer() == muxer
                &&& substream.raw() == s
            },
            Poll::Ready(Err(e)) => r matches Poll::Ready(Err(io)) && converted(e, io),
        }
    }

    /// `r` is what a poll makes of the multiplexer's `answer` to the poll of
    /// an attempt that was opened with `user_data`: a substream becomes the
    /// outbound event, bound to `muxer` and with that data; a failure is
    /// handed on, converted; `Pending` stays `Pending`.
    pub open spec fn outbound_answered(
        muxer: TMuxer,
        user_data: TUserData,
        answer: Poll<Result<TMuxer::Substream, TMuxer::Error>>,
        r: Poll<Result<NodeEvent<TMuxer, TUserData>, IoError>>,
    ) -> bool {
        match answer {
            Poll::Pending => r is Pending,
            Poll::Ready(Ok(s)) => {
                &&& r matches Poll::Ready(
                    Ok(NodeEvent::OutboundSubstream { user_data: carried, substream }),
                )
                &&& carried == user_data
                &&& substream.shared_muxer() == muxer
                &&& substream.raw() == s
            },
            Poll::Ready(Err(e)) => r matches Poll::Ready(Err(io)) && converted(e, io),
        }
    }

    /// `post` is `pre` after a poll that the inbound side decided: the
    /// multiplexer answered the inbound poll with a substream or a failure,
    /// `r` is what `inbound_answered` makes of it, and no attempt was looked
    /// at.
    pub open spec fn inbound_decided(
        pre: Self,
        post: Self,
        r: Poll<Result<NodeEvent<TMuxer, TUserData>, IoError>>,
    ) -> bool {
        &&& post.pending() == pre.pending()
        &&& post.journal().len() == pre.journal().len() + 1
        &&& post.journal().drop_last() == pre.journal()
        &&& post.journal().last() matches MuxerCall::PollInbound { answer }
        &&& answer is Ready
        &&& Self::inbound_answered(pre.muxer(), answer, r)
    }

    /// `post` is `pre` after a poll that the attempt at `n` decided: there
    /// was no inbound substream, the attempts after `n` were polled from the
    /// last on and are open still, and the attempt at `n` was settled. `r` is
    /// what `outbound_answered` makes of the multiplexer's answer. The
    /// attempt was given back as the multiplexer left it, and left the list;
    /// the others kept their order, and those before `n` were not touched.
    /// `left` holds each attempt as it was left.
    pub open spec fn settled_at(
        pre: Self,
        post: Self,
        n: int,
        left: Seq<TMuxer::OutboundSubstream>,
        r: Poll<Result<NodeEvent<TMuxer, TUserData>, IoError>>,
    ) -> bool {
        let calls = post.journal();
        let scanned = pre.journal().push(MuxerCall::PollInbound { answer: Poll::Pending })
            + pending_polls::<TMuxer>(attempts_of(pre.pending()), left, n + 1);
        &&& 0 <= n < pre.pending().len()
        &&& left.len() == pre.pending().len()
        &&& forall|k: int| 0 <= k < n ==> left[k] == pre.pending()[k].1
        &&& post.pending() == requeued(pre.pending(), left).remove(n)
        &&& calls.len() == scanned.len() + 2
        &&& calls.subrange(0, scanned.len() as int) == scanned
        &&& calls[calls.len() - 2] matches MuxerCall::PollOutbound {
            attempt,
            left: settled,
            answer,
        }
        &&& attempt == pre.pending()[n].1
        &&& settled == left[n]
        &&& answer is Ready
        &&& Self::outbound_answered(pre.muxer(), pre.pending()[n].0, answer, r)
        &&& calls.last() == (MuxerCall::<TMuxer>::DestroyOutbound { attempt: left[n] })
    }

    /// `post` is `pre` after a poll that nothing decided: there was no
    /// inbound substream, and every attempt was polled, from the last to the
    /// first, and is open still, as the multiplexer left it. Each was taken
    /// out and put back at the end on the way, which leaves the first attempt
    /// last. `left` holds each attempt as it was left.
    pub open spec fn all_pending(
        pre: Self,
        post: Self,
        left: Seq<TMuxer::OutboundSubstream>,
    ) -> bool {
        &&& left.len() == pre.pending().len()
        &&& post.pending() == moved_to_end(requeued(pre.pending(), left), 0)
        &&& post.journal() == pre.journal().push(MuxerCall::PollInbound { answer: Poll::Pending })
            + pending_polls::<TMuxer>(attempts_of(pre.pending()), left, 0)
    }

    /// `post` is `pre` after a poll that answered `r`. Every call that the
    /// poll added to the journal was made on the multiplexer, so the answers
    /// that decide `r` are the multiplexer's.
    pub open spec fn polled(
        pre: Self,
        post: Self,
        r: Poll<Result<NodeEvent<TMuxer, TUserData>, IoError>>,
    ) -> bool {
        &&& post.muxer() == pre.muxer()
        &&& made_from(pre.muxer(), post.journal(), pre.journal().len() as int)
        &&& match r {
            Poll::Pending => exists|left: Seq<TMuxer::OutboundSubstream>| #[trigger]
                Self::all_pending(pre, post, left),
            Poll::Ready(_) => {
                ||| Self::inbound_decided(pre, post, r)
                ||| exists|n: int, left: Seq<TMuxer::OutboundSubstream>| #[trigger]
                    Self::settled_at(pre, post, n, left, r)
            },
        }
    }

    /// Creates a node stream on a multiplexer. No attempt is open and no call
    /// has been made.
    pub fn new(muxer: TMuxer) -> (r: Self)
        ensures
            r.muxer() == muxer,
            r.pending() == Seq::<(TUserData, TMuxer::OutboundSubstream)>::empty(),
            r.journal() == Seq::<MuxerCall<TMuxer>>::empty(),
            r.wf(),
    {
        let node = NodeStream {
            muxer: Arc::new(muxer),
            outbound_substreams: Vec::new(),
            journal: Ghost(Seq::empty()),
        };
        proof {
            lemma_fresh_is_accounted(node);
        }
        node
    }

    /// How many attempts are open.
    pub fn pending_count(&self) -> (n: usize)
        ensures
            n == self.pending().len(),
    {
        self.outbound_substreams.len()
    }

    /// Starts opening a substream. The attempt joins the open ones at the
    /// end; a later poll reports its success with `user_data`.
    pub fn open_substream(&mut self, user_data: TUserData)
        ensures
            Self::opened(*old(self), *final(self), user_data),
            old(self).wf() ==> final(self).wf(),
    {
        let raw = self.muxer.open_outbound();
        proof {
            lemma_counts_push(self.journal@, MuxerCall::OpenOutbound { attempt: raw });
            self.journal@ = self.journal@.push(MuxerCall::OpenOutbound { attempt: raw });
        }
        self.outbound_substreams.push((user_data, raw));
        proof {
            lemma_open_keeps_account(*old(self), *self, user_data);
        }
    }

    /// Whether the remote has shown any activity since the connection opened:
    /// the answer of the multiplexer to this very question.
    pub fn is_remote_acknowledged(&self) -> (b: bool)
        ensures
            call_ensures(TMuxer::is_remote_acknowledged, (&self.muxer(),), b),
    {
        self.muxer.is_remote_acknowledged()
    }

    /// Gives every open attempt back to the multiplexer, first to last, and
    /// returns the data they were opened with, in the same order. Nothing is
    /// open afterwards, so a second call returns nothing.
    pub fn cancel_outgoing(&mut self) -> (out: Vec<TUserData>)
        ensures
            Self::cancelled(*old(self), *final(self), out@),
            old(self).wf() ==> final(self).wf(),
    {
        let mut entries: Vec<(TUserData, TMuxer::OutboundSubstream)> = Vec::new();
        std::mem::swap(&mut entries, &mut self.outbound_substreams);
        let ghost all = entries@;
        let mut out: Vec<TUserData> = Vec::with_capacity(entries.len());
        for entry in it: entries
            invariant
                self.muxer() == old(self).muxer(),
                self.pending() == Seq::<(TUserData, TMuxer::OutboundSubstream)>::empty(),
                it.seq() == all,
                out@ == user_data_of(all.subrange(0, it.index() as int)),
                self.journal() == old(self).journal() + destroy_calls::<TMuxer>(
                    attempts_of(all.subrange(0, it.index() as int)),
                ),
                made_from(old(self).muxer(), self.journal(), old(self).journal().len() as int),
        {
            let (user_data, outbound) = entry;
            out.push(user_data);
            self.destroy(outbound);
        }
        proof {
            assert(all.subrange(0, all.len() as int) =~= all);
            lemma_cancel_keeps_account(*old(self), *self, out@);
        }
        out
    }

    /// Ends the node stream: gives every open attempt back as
    /// `cancel_outgoing` does, and returns the operation that closes the
    /// connection together with the data of the attempts that were given up.
    /// The multiplexer is not asked to close the connection here.
    #[must_use]
    pub fn close(self) -> (r: (Close<TMuxer>, Vec<TUserData>))
        ensures
            r.0.muxer() == self.muxer(),
            r.0.journal() == self.journal() + destroy_calls::<TMuxer>(
                attempts_of(self.pending()),
            ),
            made_from(self.muxer(), r.0.journal(), self.journal().len() as int),
            closes(r.0.journal()) == closes(self.journal()),
            r.1@ == user_data_of(self.pending()),
            r.1@.len() == self.pending().len(),
    {
        let mut node = self;
        let substreams = node.cancel_outgoing();
        proof {
            lemma_counts_add(
                self.journal(),
                destroy_calls::<TMuxer>(attempts_of(self.pending())),
            );
            lemma_counts_destroy_calls::<TMuxer>(attempts_of(self.pending()));
        }
        let close = Close { muxer: share(&node.muxer), journal: Ghost(node.journal@) };
        (close, substreams)
    }

    /// What a poll makes of the multiplexer's answer to the inbound poll: see
    /// `inbound_answered`. On `Pending` the poll goes on to the outbound
    /// attempts.
    pub fn inbound_outcome(
        muxer: &Arc<TMuxer>,
        answer: Poll<Result<TMuxer::Substream, TMuxer::Error>>,
    ) -> (r: Poll<Result<NodeEvent<TMuxer, TUserData>, IoError>>)
        ensures
            Self::inbound_answered(**muxer, answer, r),
    {
        match answer {
            Poll::Ready(Ok(substream)) => {
                let substream = substream_from_ref(share(muxer), substream);
                Poll::Ready(Ok(NodeEvent::InboundSubstream { substream }))
            },
            Poll::Ready(Err(err)) => Poll::Ready(Err(err.into())),
            Poll::Pending => Poll::Pending,
        }
    }

    /// Drains at most one event.
    ///
    /// The multiplexer is asked for an inbound substream first. If it has one
    /// or fails, that is the answer and no attempt is looked at. Otherwise the
    /// open attempts are polled from the last to the first, until one is
    /// settled: its success is the outbound event with the data it was opened
    /// with, its failure is handed on, and either way the attempt is given
    /// back and leaves the list. If none is settled the answer is `Pending`.
    pub fn poll(&mut self, cx: &mut Context<'_>) -> (r: Poll<
        Result<NodeEvent<TMuxer, TUserData>, IoError>,
    >)
        ensures
            Self::polled(*old(self), *final(self), r),
            old(self).wf() ==> final(self).wf(),
    {
        let answer = self.ask_inbound(cx);
        match Self::inbound_outcome(&self.muxer, answer) {
            Poll::Ready(decided) => {
                proof {
                    assert(self.journal().drop_last() =~= old(self).journal());
                    lemma_poll_reports_each_success(*old(self), *self, Poll::Ready(decided));
                }
                return Poll::Ready(decided);
            },
            Poll::Pending => {},
        }
        let ghost before = old(self).pending();
        let ghost asked = old(self).journal().push(
            MuxerCall::PollInbound { answer: Poll::Pending },
        );
        let ghost mut left = attempts_of(before);
        let mut n: usize = self.outbound_substreams.len();
        while n > 0
            invariant
                n <= before.len(),
                before == old(self).pending(),
                asked == old(self).journal().push(
                    MuxerCall::PollInbound { answer: Poll::Pending },
                ),
                self.muxer() == old(self).muxer(),
                left.len() == before.len(),
                forall|k: int| 0 <= k < n ==> left[k] == before[k].1,
                self.pending() == moved_to_end(requeued(before, left), n as int),
                self.journal() == asked + pending_polls::<TMuxer>(
                    attempts_of(before),
                    left,
                    n as int,
                ),
                made_from(old(self).muxer(), self.journal(), old(self).journal().len() as int),
            decreases n,
        {
            let ghost scanned = self.journal();
            n = n - 1;
            let (user_data, mut outbound) = self.outbound_substreams.swap_remove(n);
            proof {
                assert(self.pending() =~= requeued(before, left).remove(n as int));
            }
            let answer = self.ask_outbound(cx, &mut outbound);
            proof {
                let was_left = left;
                left = left.update(n as int, outbound);
                assert(requeued(before, left).remove(n as int) =~= requeued(
                    before,
                    was_left,
                ).remove(n as int));
                assert(pending_polls::<TMuxer>(attempts_of(before), left, n + 1)
                    =~= pending_polls::<TMuxer>(attempts_of(before), was_left, n + 1));
            }
            match self.settle_outbound(user_data, outbound, answer) {
                Poll::Ready(settled) => {
                    proof {
                        assert(self.journal().subrange(0, scanned.len() as int) =~= scanned);
                        assert(Self::settled_at(
                            *old(self),
                            *self,
                            n as int,
                            left,
                            Poll::Ready(settled),
                        ));
                        lemma_poll_reports_each_success(*old(self), *self, Poll::Ready(settled));
                    }
                    return Poll::Ready(settled);
                },
                Poll::Pending => {},
            }
        }
        proof {
            assert(Self::all_pending(*old(self), *self, left));
            lemma_poll_reports_each_success(*old(self), *self, Poll::Pending);
        }
        Poll::Pending
    }

    /// Asks the multiplexer for an inbound substream.
    fn ask_inbound(&mut self, cx: &mut Context<'_>) -> (answer: Poll<
        Result<TMuxer::Substream, TMuxer::Error>,
    >)
        ensures
            final(self).muxer() == old(self).muxer(),
            final(self).pending() == old(self).pending(),
            final(self).journal() == old(self).journal().push(MuxerCall::PollInbound { answer }),
            made_on(old(self).muxer(), MuxerCall::PollInbound { answer }),
    {
        let answer = self.muxer.poll_inbound(cx);
        proof {
            self.journal@ = self.journal@.push(MuxerCall::PollInbound { answer });
        }
        answer
    }

    /// Asks the multiplexer whether an attempt has been settled.
    fn ask_outbound(&mut self, cx: &mut Context<'_>, outbound: &mut TMuxer::OutboundSubstream) -> (answer:
        Poll<Result<TMuxer::Substream, TMuxer::Error>>)
        ensures
            final(self).muxer() == old(self).muxer(),
            final(self).pending() == old(self).pending(),
            final(self).journal() == old(self).journal().push(
                MuxerCall::PollOutbound {
                    attempt: *old(outbound),
                    left: *final(outbound),
                    answer,
                },
            ),
            made_on(
                old(self).muxer(),
                MuxerCall::PollOutbound {
                    attempt: *old(outbound),
                    left: *final(outbound),
                    answer,
                },
            ),
    {
        let ghost handed_in = *outbound;
        let answer = self.muxer.poll_outbound(cx, outbound);
        proof {
            self.journal@ = self.journal@.push(
                MuxerCall::PollOutbound { attempt: handed_in, left: *outbound, answer },
            );
        }
        answer
    }

    /// Gives one attempt back to the multiplexer.
    fn destroy(&mut self, outbound: TMuxer::OutboundSubstream)
        ensures
            final(self).muxer() == old(self).muxer(),
            final(self).pending() == old(self).pending(),
            final(self).journal() == old(self).journal().push(
                MuxerCall::DestroyOutbound { attempt: outbound },
            ),
            made_on(old(self).muxer(), MuxerCall::DestroyOutbound { attempt: outbound }),
    {
        let ghost given_back = outbound;
        self.muxer.destroy_outbound(outbound);
        proof {
            self.journal@ = self.journal@.push(MuxerCall::DestroyOutbound { attempt: given_back });
        }
    }

    /// Settles an attempt that is not in the list, as `poll` does with the
    /// one it has taken out, by the multiplexer's answer to its poll: `r` is
    /// what `outbound_answered` makes of the answer. On success or failure
    /// the attempt is given back to the multiplexer; on `Pending` it joins
    /// the list, at the end.
    pub fn settle_outbound(
        &mut self,
        user_data: TUserData,
        outbound: TMuxer::OutboundSubstream,
        answer: Poll<Result<TMuxer::Substream, TMuxer::Error>>,
    ) -> (r: Poll<Result<NodeEvent<TMuxer, TUserData>, IoError>>)
        ensures
            final(self).muxer() == old(self).muxer(),
            Self::outbound_answered(old(self).muxer(), user_data, answer, r),
            answer is Pending ==> {
                &&& final(self).pending() == old(self).pending().push((user_data, outbound))
                &&& final(self).journal() == old(self).journal()
            },
            answer is Ready ==> {
                &&& final(self).pending() == old(self).pending()
                &&& final(self).journal() == old(self).journal().push(
                    MuxerCall::DestroyOutbound { attempt: outbound },
                )
                &&& made_on(old(self).muxer(), MuxerCall::DestroyOutbound { attempt: outbound })
            },
    {
        match answer {
            Poll::Ready(Ok(substream)) => {
                let substream = substream_from_ref(share(&self.muxer), substream);
                self.destroy(outbound);
                Poll::Ready(Ok(NodeEvent::OutboundSubstream { user_data, substream }))
            },
            Poll::Pending => {
                self.outbound_substreams.push((user_data, outbound));
                Poll::Pending
            },
            Poll::Ready(Err(err)) => {
                self.destroy(outbound);
                Poll::Ready(Err(err.into()))
            },
        }
    }
}

impl<TMuxer: StreamMuxer, TUserData> Drop for NodeStream<TMuxer, TUserData> {
    /// Gives every open attempt back to the multiplexer, as `cancel_outgoing`
    /// does. The multiplexer is not asked to close the connection.
    ///
    /// Verus asks of every `drop` that it opens no invariant and does not
    /// unwind, which the specifications of `Vec` do not offer. So this body
    /// is taken on trust: it is the one call of `cancel_outgoing`, which is
    /// verified and whose contract is the one stated here, and it keeps the
    /// word on unwinding as long as the multiplexer does not panic in
    /// `destroy_outbound`.
    #[verifier::external_body]
    fn drop(&mut self)
        ensures
            exists|out: Seq<TUserData>| #[trigger] Self::cancelled(*old(self), *final(self), out),
        opens_invariants none
        no_unwind
    {
        self.cancel_outgoing();
    }
}

impl<TMuxer: StreamMuxer> Close<TMuxer> {
    /// The multiplexer to close.
    pub closed spec fn muxer(&self) -> TMuxer {
        *self.muxer
    }

    /// The calls made on the multiplexer so far, oldest first: those of the
    /// node stream, then one `close` for every poll.
    pub closed spec fn journal(&self) -> Seq<MuxerCall<TMuxer>> {
        self.journal@
    }

    /// `r` is what the close operation makes of the multiplexer's `answer`:
    /// success for success, `Pending` for `Pending`, and the converted
    /// failure for a failure.
    pub open spec fn answered(
        answer: Poll<Result<(), TMuxer::Error>>,
        r: Poll<Result<(), IoError>>,
    ) -> bool {
        match answer {
            Poll::Pending => r is Pending,
            Poll::Ready(Ok(())) => r matches Poll::Ready(Ok(())),
            Poll::Ready(Err(e)) => r matches Poll::Ready(Err(io)) && converted(e, io),
        }
    }

    /// What a poll of the close operation answers to an answer of the
    /// multiplexer: see `answered`.
    pub fn close_outcome(answer: Poll<Result<(), TMuxer::Error>>) -> (r: Poll<Result<(), IoError>>)
        ensures
            Self::answered(answer, r),
    {
        match answer {
            Poll::Pending => Poll::Pending,
            Poll::Ready(Ok(())) => Poll::Ready(Ok(())),
            Poll::Ready(Err(err)) => Poll::Ready(Err(err.into())),
        }
    }

    /// Asks the multiplexer once to close the connection, and answers what
    /// `close_outcome` makes of its answer. Nothing else is done.
    pub fn poll(&mut self, cx: &mut Context<'_>) -> (r: Poll<Result<(), IoError>>)
        ensures
            final(self).muxer() == old(self).muxer(),
            final(self).journal().len() == old(self).journal().len() + 1,
            final(self).journal().drop_last() == old(self).journal(),
            final(self).journal().last() matches MuxerCall::Close { outcome } && Self::answered(
                outcome,
                r,
            ),
            made_on(old(self).muxer(), final(self).journal().last()),
    {
        let answer = self.muxer.close(cx);
        proof {
            self.journal@ = self.journal@.push(MuxerCall::Close { outcome: answer });
        }
        Self::close_outcome(answer)
    }
}

} // verus!
