use vstd::prelude::*;
use crazyradio::Error as RadioError;

verus! {

/// The error type of the Crazyradio driver, carried through unchanged.
#[verifier::external_type_specification]
#[verifier::external_body]
pub struct ExCrazyradioError(RadioError);

/// The error of a receive on a disconnected channel, carried through unchanged.
#[verifier::external_type_specification]
#[verifier::external_body]
pub struct ExRecvError(flume::RecvError);

/// The error of a send on a disconnected channel, carried through unchanged.
#[verifier::external_type_specification]
#[verifier::external_body]
#[verifier::reject_recursive_types(T)]
pub struct ExSendError<T>(flume::SendError<T>);

/// The errors of the link.
#[derive(Debug)]
pub enum Error {
    /// The URI is not a valid link URI.
    InvalidUri,
    /// The URI is valid but names another kind of link.
    InvalidUriScheme,
    /// No answer came in time.
    Timeout,
    /// The Crazyradio driver failed.
    CrazyradioError(RadioError),
    /// The connection task has stopped: nothing more can be received.
    ChannelRecvError(flume::RecvError),
    /// The connection task has stopped: nothing more can be sent.
    ChannelSendError(flume::SendError<Vec<u8>>),
}

} // verus!
