//! The multiplexer that a node stream consumes, and the substreams that it
//! hands out.

use std::io::Error as IoError;
use std::sync::Arc;
use std::task::Context;
use std::task::Poll;
use vstd::prelude::*;

verus! {

/// One connection that carries many independent substreams.
///
/// A multiplexer is shared: the node stream, every substream and the close
/// operation hold it together, so every operation takes `&self`. The polling
/// operations never block. When they answer `Pending` the multiplexer has
/// arranged for the context to be woken.
///
/// Nothing is promised of what an implementation answers.
pub trait StreamMuxer {
    /// An open substream.
    type Substream;

    /// An attempt to open a substream that has not been settled yet.
    type OutboundSubstream;

    /// The failure of an operation.
    type Error: Into<IoError>;

    /// Asks for a substream that the remote opened.
    fn poll_inbound(&self, cx: &mut Context<'_>) -> Poll<Result<Self::Substream, Self::Error>>;

    /// Starts an attempt to open a substream. Never fails.
    fn open_outbound(&self) -> Self::OutboundSubstream;

    /// Asks whether an attempt has been settled.
    fn poll_outbound(&self, cx: &mut Context<'_>, s: &mut Self::OutboundSubstream) -> Poll<
        Result<Self::Substream, Self::Error>,
    >;

    /// Gives an attempt back, settled or not. Owed once for every attempt.
    fn destroy_outbound(&self, s: Self::OutboundSubstream);

    /// Whether the remote has shown any activity since the connection opened.
    fn is_remote_acknowledged(&self) -> bool;

    /// Closes the connection in a way that the remote sees.
    fn close(&self, cx: &mut Context<'_>) -> Poll<Result<(), Self::Error>>;
}

/// An open substream together with the multiplexer it lives on.
///
/// It holds the multiplexer itself and nothing of the node stream that
/// produced it, so it outlives that node stream.
pub struct Substream<TMuxer: StreamMuxer> {
    muxer: Arc<TMuxer>,
    substream: TMuxer::Substream,
}

impl<TMuxer: StreamMuxer> Substream<TMuxer> {
    /// The multiplexer that the substream lives on.
    pub closed spec fn shared_muxer(&self) -> TMuxer {
        *self.muxer
    }

    /// The substream as the multiplexer handed it out.
    pub closed spec fn raw(&self) -> TMuxer::Substream {
        self.substream
    }

    /// The multiplexer that the substream lives on.
    pub fn muxer(&self) -> (r: &Arc<TMuxer>)
        ensures
            **r == self.shared_muxer(),
    {
        &self.muxer
    }

    /// The substream as the multiplexer handed it out.
    pub fn get_ref(&self) -> (r: &TMuxer::Substream)
        ensures
            *r == self.raw(),
    {
        &self.substream
    }

    /// Takes the substream apart.
    pub fn into_parts(self) -> (r: (Arc<TMuxer>, TMuxer::Substream))
        ensures
            *r.0 == self.shared_muxer(),
            r.1 == self.raw(),
    {
        (self.muxer, self.substream)
    }
}

/// Binds a substream to the multiplexer that it lives on.
pub fn substream_from_ref<TMuxer: StreamMuxer>(muxer: Arc<TMuxer>, substream: TMuxer::Substream) -> (r:
    Substream<TMuxer>)
    ensures
        r.shared_muxer() == *muxer,
        r.raw() == substream,
{
    Substream { muxer, substream }
}

} // verus!
