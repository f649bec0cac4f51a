//! The kinds of failure that the farm reports.
use vstd::prelude::*;

verus! {

/// Why a request, a worker or the farm failed.
#[derive(Clone, Debug, PartialEq, Eq)]
pub enum FarmError {
    /// The runtime could not be started, or did not connect its workers.
    BootstrapFailed,
    /// A malformed frame arrived on a worker's stream.
    FramingError,
    /// The worker's stream ended before the response came.
    PeerClosed,
    /// The worker is no longer ready to take requests.
    ChannelClosed,
    /// Every worker has failed.
    NoHealthyWorker,
    /// A broadcast failed on the workers at these ordinals, in increasing order.
    BroadcastPartial(Vec<usize>),
    /// The request outlived the farm.
    Shutdown,
    /// A payload could not be encoded or decoded.
    Serialization,
    /// The worker has used up every request id.
    IdsExhausted,
}

} // verus!
