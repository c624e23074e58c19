use futures::task::noop_waker;
use node_stream::muxing::substream_from_ref;
use node_stream::muxing::StreamMuxer;
use node_stream::node::Close;
use node_stream::node::NodeEvent;
use node_stream::node::NodeStream;
use std::cell::RefCell;
use std::collections::VecDeque;
use std::io::Error as IoError;
use std::io::ErrorKind;
use std::rc::Rc;
use std::sync::Arc;
use std::task::Context;
use std::task::Poll;

/// A failure of the scripted multiplexer. It converts to an `io::Error` of
/// the kind it holds.
#[derive(Debug)]
struct Failure(ErrorKind);

impl From<Failure> for IoError {
    fn from(failure: Failure) -> IoError {
        IoError::new(failure.0, "scripted failure")
    }
}

/// What the scripted multiplexer was asked and what it is to answer.
#[derive(Default)]
struct Record {
    next_attempt: u32,
    next_substream: u32,
    acknowledged: bool,
    /// Answers to the inbound polls to come: `Some(Ok(()))` for a substream,
    /// `Some(Err(kind))` for a failure, `None` for `Pending`. `Pending` once
    /// the list is used up.
    inbound: VecDeque<Option<Result<(), ErrorKind>>>,
    /// The attempts that are settled, each with its answer.
    settled: Vec<(u32, Result<(), ErrorKind>)>,
    /// Answers to the close polls to come, `Pending` once used up.
    closing: VecDeque<Option<Result<(), ErrorKind>>>,
    /// Whether every outbound poll adds 100 to the attempt it is handed.
    aging: bool,
    inbound_polls: usize,
    opened: Vec<u32>,
    outbound_polls: Vec<u32>,
    destroyed: Vec<u32>,
    close_calls: usize,
}

/// A multiplexer that answers by a script and records every call.
struct Scripted {
    record: Rc<RefCell<Record>>,
}

impl StreamMuxer for Scripted {
    type Substream = u32;
    type OutboundSubstream = u32;
    type Error = Failure;

    fn poll_inbound(&self, _cx: &mut Context<'_>) -> Poll<Result<u32, Failure>> {
        let mut record = self.record.borrow_mut();
        record.inbound_polls += 1;
        match record.inbound.pop_front() {
            Some(Some(Ok(()))) => {
                record.next_substream += 1;
                Poll::Ready(Ok(1000 + record.next_substream))
            }
            Some(Some(Err(kind))) => Poll::Ready(Err(Failure(kind))),
            Some(None) | None => Poll::Pending,
        }
    }

    fn open_outbound(&self) -> u32 {
        let mut record = self.record.borrow_mut();
        let attempt = record.next_attempt;
        record.next_attempt += 1;
        record.opened.push(attempt);
        attempt
    }

    fn poll_outbound(&self, _cx: &mut Context<'_>, s: &mut u32) -> Poll<Result<u32, Failure>> {
        let mut record = self.record.borrow_mut();
        record.outbound_polls.push(*s);
        let name = *s % 100;
        if record.aging {
            *s += 100;
        }
        let found = record.settled.iter().position(|(attempt, _)| *attempt == name);
        match found {
            Some(at) => match record.settled.remove(at).1 {
                Ok(()) => Poll::Ready(Ok(2000 + name)),
                Err(kind) => Poll::Ready(Err(Failure(kind))),
            },
            None => Poll::Pending,
        }
    }

    fn destroy_outbound(&self, s: u32) {
        self.record.borrow_mut().destroyed.push(s);
    }

    fn is_remote_acknowledged(&self) -> bool {
        self.record.borrow().acknowledged
    }

    fn close(&self, _cx: &mut Context<'_>) -> Poll<Result<(), Failure>> {
        let mut record = self.record.borrow_mut();
        record.close_calls += 1;
        match record.closing.pop_front() {
            Some(Some(Ok(()))) => Poll::Ready(Ok(())),
            Some(Some(Err(kind))) => Poll::Ready(Err(Failure(kind))),
            Some(None) | None => Poll::Pending,
        }
    }
}

fn scripted() -> (Rc<RefCell<Record>>, Scripted) {
    let record = Rc::new(RefCell::new(Record::default()));
    let muxer = Scripted { record: record.clone() };
    (record, muxer)
}

/// The outcome of a poll in a form that can be compared: the kind of event
/// with the tag and the raw substream, the kind of the failure, or pending.
#[derive(Debug, PartialEq)]
enum Seen {
    Inbound(u32),
    Outbound(&'static str, u32),
    Failed(ErrorKind),
    Pending,
}

fn poll_once(node: &mut NodeStream<Scripted, &'static str>) -> Seen {
    let waker = noop_waker();
    let mut cx = Context::from_waker(&waker);
    match node.poll(&mut cx) {
        Poll::Ready(Ok(NodeEvent::InboundSubstream { substream })) => {
            Seen::Inbound(*substream.get_ref())
        }
        Poll::Ready(Ok(NodeEvent::OutboundSubstream { user_data, substream })) => {
            Seen::Outbound(user_data, *substream.get_ref())
        }
        Poll::Ready(Err(err)) => Seen::Failed(err.kind()),
        Poll::Pending => Seen::Pending,
    }
}

fn poll_close(close: &mut Close<Scripted>) -> Poll<Result<(), ErrorKind>> {
    let waker = noop_waker();
    let mut cx = Context::from_waker(&waker);
    match close.poll(&mut cx) {
        Poll::Ready(Ok(())) => Poll::Ready(Ok(())),
        Poll::Ready(Err(err)) => Poll::Ready(Err(err.kind())),
        Poll::Pending => Poll::Pending,
    }
}

#[test]
fn new_node_stream_has_nothing_open_and_calls_nothing() {
    let (record, muxer) = scripted();
    let node: NodeStream<Scripted, &'static str> = NodeStream::new(muxer);
    assert_eq!(node.pending_count(), 0);
    let record = record.borrow();
    assert_eq!(record.inbound_polls, 0);
    assert!(record.opened.is_empty());
    assert!(record.outbound_polls.is_empty());
    assert!(record.destroyed.is_empty());
    assert_eq!(record.close_calls, 0);
}

#[test]
fn open_substream_asks_the_muxer_for_one_attempt() {
    let (record, muxer) = scripted();
    let mut node = NodeStream::new(muxer);
    node.open_substream("a");
    assert_eq!(node.pending_count(), 1);
    node.open_substream("b");
    assert_eq!(node.pending_count(), 2);
    assert_eq!(record.borrow().opened, vec![0, 1]);
    assert!(record.borrow().outbound_polls.is_empty());
}

#[test]
fn second_attempt_settled_first_then_cancel_returns_the_first() {
    let (record, muxer) = scripted();
    let mut node = NodeStream::new(muxer);
    node.open_substream("a");
    node.open_substream("b");
    record.borrow_mut().settled.push((1, Ok(())));

    assert_eq!(poll_once(&mut node), Seen::Outbound("b", 2001));
    assert_eq!(node.cancel_outgoing(), vec!["a"]);
    assert_eq!(node.pending_count(), 0);
    assert_eq!(record.borrow().destroyed, vec![1, 0]);
}

#[test]
fn empty_poll_is_pending_and_asks_only_for_inbound() {
    let (record, muxer) = scripted();
    let mut node = NodeStream::new(muxer);
    assert_eq!(poll_once(&mut node), Seen::Pending);
    assert_eq!(record.borrow().inbound_polls, 1);
    assert!(record.borrow().outbound_polls.is_empty());
}

#[test]
fn inbound_comes_before_outbound_and_one_event_per_poll() {
    let (record, muxer) = scripted();
    let mut node = NodeStream::new(muxer);
    node.open_substream("out");
    record.borrow_mut().settled.push((0, Ok(())));
    record.borrow_mut().inbound.push_back(Some(Ok(())));

    assert_eq!(poll_once(&mut node), Seen::Inbound(1001));
    assert!(record.borrow().outbound_polls.is_empty());
    assert_eq!(node.pending_count(), 1);

    assert_eq!(poll_once(&mut node), Seen::Outbound("out", 2000));
    assert_eq!(node.pending_count(), 0);
    assert_eq!(record.borrow().inbound_polls, 2);
    assert_eq!(record.borrow().destroyed, vec![0]);

    assert_eq!(poll_once(&mut node), Seen::Pending);
}

#[test]
fn two_settled_attempts_take_two_polls() {
    let (record, muxer) = scripted();
    let mut node = NodeStream::new(muxer);
    node.open_substream("a");
    node.open_substream("b");
    record.borrow_mut().settled.push((0, Ok(())));
    record.borrow_mut().settled.push((1, Ok(())));

    assert_eq!(poll_once(&mut node), Seen::Outbound("b", 2001));
    assert_eq!(node.pending_count(), 1);
    assert_eq!(poll_once(&mut node), Seen::Outbound("a", 2000));
    assert_eq!(node.pending_count(), 0);
    assert_eq!(poll_once(&mut node), Seen::Pending);
}

#[test]
fn attempts_are_polled_from_the_last_to_the_first() {
    let (record, muxer) = scripted();
    let mut node = NodeStream::new(muxer);
    node.open_substream("a");
    node.open_substream("b");
    node.open_substream("c");
    assert_eq!(poll_once(&mut node), Seen::Pending);
    assert_eq!(record.borrow().outbound_polls, vec![2, 1, 0]);
    assert_eq!(node.pending_count(), 3);
    assert!(record.borrow().destroyed.is_empty());
}

#[test]
fn a_pending_scan_leaves_the_first_attempt_last() {
    let (record, muxer) = scripted();
    let mut node = NodeStream::new(muxer);
    node.open_substream("a");
    node.open_substream("b");
    node.open_substream("c");
    node.open_substream("d");
    assert_eq!(poll_once(&mut node), Seen::Pending);
    assert_eq!(node.cancel_outgoing(), vec!["b", "c", "d", "a"]);
    assert_eq!(record.borrow().destroyed, vec![1, 2, 3, 0]);
}

#[test]
fn settling_in_the_middle_keeps_the_order_of_the_rest() {
    let (record, muxer) = scripted();
    let mut node = NodeStream::new(muxer);
    node.open_substream("a");
    node.open_substream("b");
    node.open_substream("c");
    node.open_substream("d");
    record.borrow_mut().settled.push((1, Ok(())));
    assert_eq!(poll_once(&mut node), Seen::Outbound("b", 2001));
    assert_eq!(record.borrow().outbound_polls, vec![3, 2, 1]);
    assert_eq!(node.cancel_outgoing(), vec!["a", "c", "d"]);
}

#[test]
fn every_successful_attempt_gives_one_event_with_its_own_data() {
    let (record, muxer) = scripted();
    let mut node = NodeStream::new(muxer);
    let tags = ["t0", "t1", "t2", "t3", "t4"];
    for tag in tags {
        node.open_substream(tag);
    }
    record.borrow_mut().settled.push((3, Ok(())));
    record.borrow_mut().settled.push((0, Ok(())));
    record.borrow_mut().settled.push((4, Ok(())));

    let mut events = Vec::new();
    for _ in 0..10 {
        match poll_once(&mut node) {
            Seen::Outbound(tag, raw) => events.push((tag, raw)),
            Seen::Pending => {}
            other => panic!("unexpected {:?}", other),
        }
    }
    events.sort();
    assert_eq!(events, vec![("t0", 2000), ("t3", 2003), ("t4", 2004)]);
    assert_eq!(node.pending_count(), 2);

    let mut rest = node.cancel_outgoing();
    rest.sort();
    assert_eq!(rest, vec!["t1", "t2"]);

    let mut destroyed = record.borrow().destroyed.clone();
    destroyed.sort();
    assert_eq!(destroyed, vec![0, 1, 2, 3, 4]);
}

#[test]
fn cancel_then_poll_reports_no_outbound_event() {
    let (record, muxer) = scripted();
    let mut node = NodeStream::new(muxer);
    node.open_substream("a");
    node.open_substream("b");
    node.open_substream("c");
    record.borrow_mut().settled.push((0, Ok(())));
    record.borrow_mut().settled.push((2, Ok(())));

    assert_eq!(node.cancel_outgoing(), vec!["a", "b", "c"]);
    assert_eq!(record.borrow().destroyed, vec![0, 1, 2]);
    assert_eq!(poll_once(&mut node), Seen::Pending);
    assert!(record.borrow().outbound_polls.is_empty());
    assert_eq!(record.borrow().destroyed, vec![0, 1, 2]);
}

#[test]
fn cancel_twice_returns_nothing_the_second_time() {
    let (record, muxer) = scripted();
    let mut node = NodeStream::new(muxer);
    node.open_substream("a");
    assert_eq!(node.cancel_outgoing(), vec!["a"]);
    assert_eq!(node.cancel_outgoing(), Vec::<&'static str>::new());
    assert_eq!(record.borrow().destroyed, vec![0]);
}

#[test]
fn cancel_with_nothing_open_returns_nothing() {
    let (record, muxer) = scripted();
    let mut node: NodeStream<Scripted, &'static str> = NodeStream::new(muxer);
    assert!(node.cancel_outgoing().is_empty());
    assert!(record.borrow().destroyed.is_empty());
}

#[test]
fn drop_destroys_every_open_attempt_and_does_not_close() {
    let (record, muxer) = scripted();
    let mut node = NodeStream::new(muxer);
    node.open_substream("a");
    node.open_substream("b");
    node.open_substream("c");
    drop(node);
    let record = record.borrow();
    let mut destroyed = record.destroyed.clone();
    destroyed.sort();
    assert_eq!(destroyed, vec![0, 1, 2]);
    assert_eq!(record.close_calls, 0);
}

#[test]
fn drop_with_nothing_open_calls_nothing() {
    let (record, muxer) = scripted();
    let node: NodeStream<Scripted, &'static str> = NodeStream::new(muxer);
    drop(node);
    assert!(record.borrow().destroyed.is_empty());
    assert_eq!(record.borrow().close_calls, 0);
}

#[test]
fn drop_after_an_event_destroys_only_what_is_left() {
    let (record, muxer) = scripted();
    let mut node = NodeStream::new(muxer);
    node.open_substream("a");
    node.open_substream("b");
    record.borrow_mut().settled.push((0, Ok(())));
    assert_eq!(poll_once(&mut node), Seen::Outbound("a", 2000));
    assert_eq!(record.borrow().destroyed, vec![0]);
    drop(node);
    assert_eq!(record.borrow().destroyed, vec![0, 1]);
    assert_eq!(record.borrow().close_calls, 0);
}

#[test]
fn close_returns_the_data_of_the_attempts_it_gave_up() {
    let (record, muxer) = scripted();
    let mut node = NodeStream::new(muxer);
    node.open_substream("a");
    node.open_substream("b");
    node.open_substream("c");
    let (mut close, given_up) = node.close();
    assert_eq!(given_up, vec!["a", "b", "c"]);
    assert_eq!(record.borrow().destroyed, vec![0, 1, 2]);
    assert_eq!(record.borrow().close_calls, 0);

    record.borrow_mut().closing.push_back(None);
    record.borrow_mut().closing.push_back(Some(Ok(())));
    assert_eq!(poll_close(&mut close), Poll::Pending);
    assert_eq!(poll_close(&mut close), Poll::Ready(Ok(())));
    assert_eq!(record.borrow().close_calls, 2);
    assert_eq!(record.borrow().destroyed, vec![0, 1, 2]);
}

#[test]
fn close_with_nothing_open_returns_no_data() {
    let (record, muxer) = scripted();
    let node: NodeStream<Scripted, &'static str> = NodeStream::new(muxer);
    let (_close, given_up) = node.close();
    assert!(given_up.is_empty());
    assert!(record.borrow().destroyed.is_empty());
    assert_eq!(record.borrow().close_calls, 0);
}

#[test]
fn close_operation_hands_on_the_failure_of_the_muxer() {
    let (record, muxer) = scripted();
    let node: NodeStream<Scripted, &'static str> = NodeStream::new(muxer);
    let (mut close, _) = node.close();
    record.borrow_mut().closing.push_back(Some(Err(ErrorKind::BrokenPipe)));
    assert_eq!(poll_close(&mut close), Poll::Ready(Err(ErrorKind::BrokenPipe)));
    assert_eq!(record.borrow().close_calls, 1);
}

#[test]
fn close_outcome_answers_each_answer_in_kind() {
    assert!(matches!(Close::<Scripted>::close_outcome(Poll::Pending), Poll::Pending));
    assert!(matches!(Close::<Scripted>::close_outcome(Poll::Ready(Ok(()))), Poll::Ready(Ok(()))));
    match Close::<Scripted>::close_outcome(Poll::Ready(Err(Failure(ErrorKind::TimedOut)))) {
        Poll::Ready(Err(err)) => assert_eq!(err.kind(), ErrorKind::TimedOut),
        _ => panic!("a failure must stay a failure"),
    }
}

#[test]
fn inbound_outcome_answers_each_answer_in_kind() {
    let (_record, muxer) = scripted();
    let muxer = Arc::new(muxer);

    let pending: Poll<Result<NodeEvent<Scripted, u8>, IoError>> =
        NodeStream::inbound_outcome(&muxer, Poll::Pending);
    assert!(matches!(pending, Poll::Pending));

    let ready: Poll<Result<NodeEvent<Scripted, u8>, IoError>> =
        NodeStream::inbound_outcome(&muxer, Poll::Ready(Ok(7)));
    match ready {
        Poll::Ready(Ok(NodeEvent::InboundSubstream { substream })) => {
            assert_eq!(*substream.get_ref(), 7);
            assert!(Arc::ptr_eq(substream.muxer(), &muxer));
        }
        _ => panic!("a substream must become the inbound event"),
    }

    let failed: Poll<Result<NodeEvent<Scripted, u8>, IoError>> =
        NodeStream::inbound_outcome(&muxer, Poll::Ready(Err(Failure(ErrorKind::InvalidData))));
    match failed {
        Poll::Ready(Err(err)) => assert_eq!(err.kind(), ErrorKind::InvalidData),
        _ => panic!("a failure must stay a failure"),
    }
}

#[test]
fn inbound_failure_is_reported_and_the_stream_goes_on() {
    let (record, muxer) = scripted();
    let mut node = NodeStream::new(muxer);
    node.open_substream("a");
    record.borrow_mut().settled.push((0, Ok(())));
    record.borrow_mut().inbound.push_back(Some(Err(ErrorKind::ConnectionReset)));

    assert_eq!(poll_once(&mut node), Seen::Failed(ErrorKind::ConnectionReset));
    assert!(record.borrow().outbound_polls.is_empty());
    assert_eq!(node.pending_count(), 1);
    assert!(record.borrow().destroyed.is_empty());

    assert_eq!(poll_once(&mut node), Seen::Outbound("a", 2000));
}

#[test]
fn outbound_failure_removes_and_destroys_the_attempt() {
    let (record, muxer) = scripted();
    let mut node = NodeStream::new(muxer);
    node.open_substream("a");
    node.open_substream("b");
    node.open_substream("c");
    record.borrow_mut().settled.push((1, Err(ErrorKind::ConnectionRefused)));
    record.borrow_mut().settled.push((0, Ok(())));

    assert_eq!(poll_once(&mut node), Seen::Failed(ErrorKind::ConnectionRefused));
    assert_eq!(record.borrow().outbound_polls, vec![2, 1]);
    assert_eq!(record.borrow().destroyed, vec![1]);
    assert_eq!(node.pending_count(), 2);

    assert_eq!(poll_once(&mut node), Seen::Outbound("a", 2000));
    assert_eq!(node.cancel_outgoing(), vec!["c"]);
    assert_eq!(record.borrow().destroyed, vec![1, 0, 2]);
}

#[test]
fn remote_acknowledged_follows_the_muxer() {
    let (record, muxer) = scripted();
    let node: NodeStream<Scripted, &'static str> = NodeStream::new(muxer);
    assert!(!node.is_remote_acknowledged());
    record.borrow_mut().acknowledged = true;
    assert!(node.is_remote_acknowledged());
    record.borrow_mut().acknowledged = false;
    assert!(!node.is_remote_acknowledged());
}

#[test]
fn substream_outlives_the_node_stream() {
    let (record, muxer) = scripted();
    let mut node: NodeStream<Scripted, &'static str> = NodeStream::new(muxer);
    record.borrow_mut().inbound.push_back(Some(Ok(())));
    let waker = noop_waker();
    let mut cx = Context::from_waker(&waker);
    let substream = match node.poll(&mut cx) {
        Poll::Ready(Ok(NodeEvent::InboundSubstream { substream })) => substream,
        _ => panic!("an inbound substream was ready"),
    };
    assert_eq!(Arc::strong_count(substream.muxer()), 2);
    drop(node);
    assert_eq!(Arc::strong_count(substream.muxer()), 1);
    record.borrow_mut().acknowledged = true;
    assert!(substream.muxer().is_remote_acknowledged());
    assert_eq!(*substream.get_ref(), 1001);
    assert_eq!(record.borrow().close_calls, 0);
}

#[test]
fn substreams_of_one_node_share_one_muxer() {
    let (record, muxer) = scripted();
    let mut node = NodeStream::new(muxer);
    node.open_substream("a");
    record.borrow_mut().inbound.push_back(Some(Ok(())));
    record.borrow_mut().settled.push((0, Ok(())));
    let waker = noop_waker();
    let mut cx = Context::from_waker(&waker);
    let first = match node.poll(&mut cx) {
        Poll::Ready(Ok(NodeEvent::InboundSubstream { substream })) => substream,
        _ => panic!("an inbound substream was ready"),
    };
    let second = match node.poll(&mut cx) {
        Poll::Ready(Ok(NodeEvent::OutboundSubstream { substream, .. })) => substream,
        _ => panic!("an outbound substream was ready"),
    };
    assert!(Arc::ptr_eq(first.muxer(), second.muxer()));
    assert_eq!(Arc::strong_count(first.muxer()), 3);
    let (shared, raw) = second.into_parts();
    assert_eq!(raw, 2000);
    assert!(Arc::ptr_eq(first.muxer(), &shared));
}

#[test]
fn close_operation_keeps_the_muxer_alive() {
    let (record, muxer) = scripted();
    let node: NodeStream<Scripted, &'static str> = NodeStream::new(muxer);
    let (mut close, _) = node.close();
    record.borrow_mut().closing.push_back(Some(Ok(())));
    assert_eq!(poll_close(&mut close), Poll::Ready(Ok(())));
    assert_eq!(record.borrow().close_calls, 1);
}

#[test]
fn substream_from_ref_binds_the_parts() {
    let (_record, muxer) = scripted();
    let muxer = Arc::new(muxer);
    let substream = substream_from_ref(muxer.clone(), 42);
    assert_eq!(*substream.get_ref(), 42);
    assert!(Arc::ptr_eq(substream.muxer(), &muxer));
}

#[test]
fn user_data_comes_back_unchanged() {
    let (record, muxer) = scripted();
    let mut node: NodeStream<Scripted, String> = NodeStream::new(muxer);
    node.open_substream(String::from("a long tag that is owned"));
    record.borrow_mut().settled.push((0, Ok(())));
    let waker = noop_waker();
    let mut cx = Context::from_waker(&waker);
    match node.poll(&mut cx) {
        Poll::Ready(Ok(NodeEvent::OutboundSubstream { user_data, substream })) => {
            assert_eq!(user_data, "a long tag that is owned");
            assert_eq!(*substream.get_ref(), 2000);
        }
        _ => panic!("the attempt was settled"),
    }
}

#[test]
fn attempts_are_given_back_as_the_muxer_left_them() {
    let (record, muxer) = scripted();
    record.borrow_mut().aging = true;
    let mut node = NodeStream::new(muxer);
    node.open_substream("a");
    node.open_substream("b");
    node.open_substream("c");

    assert_eq!(poll_once(&mut node), Seen::Pending);
    assert_eq!(record.borrow().outbound_polls, vec![2, 1, 0]);

    record.borrow_mut().settled.push((1, Ok(())));
    assert_eq!(poll_once(&mut node), Seen::Outbound("b", 2001));
    assert_eq!(record.borrow().outbound_polls, vec![2, 1, 0, 100, 102, 101]);
    assert_eq!(record.borrow().destroyed, vec![201]);

    assert_eq!(node.cancel_outgoing(), vec!["c", "a"]);
    assert_eq!(record.borrow().destroyed, vec![201, 202, 200]);
}

#[test]
fn attempts_can_be_opened_again_after_a_cancel() {
    let (record, muxer) = scripted();
    let mut node = NodeStream::new(muxer);
    node.open_substream("a");
    assert_eq!(node.cancel_outgoing(), vec!["a"]);
    node.open_substream("b");
    assert_eq!(node.pending_count(), 1);
    record.borrow_mut().settled.push((1, Ok(())));
    assert_eq!(poll_once(&mut node), Seen::Outbound("b", 2001));
    assert_eq!(record.borrow().opened, vec![0, 1]);
    assert_eq!(record.borrow().destroyed, vec![0, 1]);
}

#[test]
fn equal_user_data_is_kept_apart() {
    let (record, muxer) = scripted();
    let mut node = NodeStream::new(muxer);
    node.open_substream("same");
    node.open_substream("same");
    record.borrow_mut().settled.push((0, Ok(())));
    assert_eq!(poll_once(&mut node), Seen::Outbound("same", 2000));
    assert_eq!(node.pending_count(), 1);
    assert_eq!(poll_once(&mut node), Seen::Pending);
    assert_eq!(node.cancel_outgoing(), vec!["same"]);
    assert_eq!(record.borrow().destroyed, vec![0, 1]);
}

#[test]
fn close_operation_can_be_polled_until_it_completes() {
    let (record, muxer) = scripted();
    let mut node = NodeStream::new(muxer);
    node.open_substream("a");
    let (mut close, given_up) = node.close();
    assert_eq!(given_up, vec!["a"]);
    assert_eq!(poll_close(&mut close), Poll::Pending);
    assert_eq!(poll_close(&mut close), Poll::Pending);
    record.borrow_mut().closing.push_back(Some(Ok(())));
    assert_eq!(poll_close(&mut close), Poll::Ready(Ok(())));
    assert_eq!(record.borrow().close_calls, 3);
    assert_eq!(record.borrow().inbound_polls, 0);
    assert!(record.borrow().outbound_polls.is_empty());
}

#[test]
fn settle_outbound_puts_a_pending_attempt_at_the_end() {
    let (record, muxer) = scripted();
    let mut node = NodeStream::new(muxer);
    node.open_substream("a");
    let answer = node.settle_outbound("late", 77, Poll::Pending);
    assert!(matches!(answer, Poll::Pending));
    assert_eq!(node.pending_count(), 2);
    assert!(record.borrow().destroyed.is_empty());
    assert_eq!(node.cancel_outgoing(), vec!["a", "late"]);
    assert_eq!(record.borrow().destroyed, vec![0, 77]);
}

#[test]
fn settle_outbound_reports_a_success_and_gives_the_attempt_back() {
    let (record, muxer) = scripted();
    let mut node = NodeStream::new(muxer);
    node.open_substream("a");
    match node.settle_outbound("done", 77, Poll::Ready(Ok(5))) {
        Poll::Ready(Ok(NodeEvent::OutboundSubstream { user_data, substream })) => {
            assert_eq!(user_data, "done");
            assert_eq!(*substream.get_ref(), 5);
        }
        _ => panic!("a substream must become the outbound event"),
    }
    assert_eq!(node.pending_count(), 1);
    assert_eq!(record.borrow().destroyed, vec![77]);
    assert!(record.borrow().outbound_polls.is_empty());
}

#[test]
fn settle_outbound_hands_on_a_failure_and_gives_the_attempt_back() {
    let (record, muxer) = scripted();
    let mut node: NodeStream<Scripted, &'static str> = NodeStream::new(muxer);
    match node.settle_outbound("lost", 78, Poll::Ready(Err(Failure(ErrorKind::NotConnected)))) {
        Poll::Ready(Err(err)) => assert_eq!(err.kind(), ErrorKind::NotConnected),
        _ => panic!("a failure must stay a failure"),
    }
    assert_eq!(node.pending_count(), 0);
    assert_eq!(record.borrow().destroyed, vec![78]);
}

#[test]
fn drop_of_three_unpolled_attempts_gives_each_back_once() {
    let (record, muxer) = scripted();
    let mut node: NodeStream<Scripted, u32> = NodeStream::new(muxer);
    node.open_substream(1u32);
    node.open_substream(2);
    node.open_substream(3);
    drop(node);
    let record = record.borrow();
    assert_eq!(record.destroyed, vec![0, 1, 2]);
    assert_eq!(record.close_calls, 0);
    assert_eq!(record.inbound_polls, 0);
    assert!(record.outbound_polls.is_empty());
    assert_eq!(record.opened, vec![0, 1, 2]);
}

#[test]
fn ready_attempts_are_reported_one_per_poll_and_then_pending() {
    let (record, muxer) = scripted();
    let mut node = NodeStream::new(muxer);
    for tag in ["d1", "d2", "d3", "d4", "d5"] {
        node.open_substream(tag);
    }
    record.borrow_mut().settled.push((0, Ok(())));
    record.borrow_mut().settled.push((2, Ok(())));
    record.borrow_mut().settled.push((3, Ok(())));

    let mut reported = Vec::new();
    for _ in 0..3 {
        match poll_once(&mut node) {
            Seen::Outbound(tag, _) => reported.push(tag),
            other => panic!("unexpected {:?}", other),
        }
    }
    reported.sort();
    assert_eq!(reported, vec!["d1", "d3", "d4"]);
    assert_eq!(node.pending_count(), 2);

    for _ in 0..4 {
        assert_eq!(poll_once(&mut node), Seen::Pending);
        assert_eq!(node.pending_count(), 2);
    }
    let mut rest = node.cancel_outgoing();
    rest.sort();
    assert_eq!(rest, vec!["d2", "d5"]);
}
