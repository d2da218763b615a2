use vstd::prelude::*;

verus! {

/// The status of a link connection.
#[derive(Clone, Debug)]
pub enum ConnectionStatus {
    /// The link is connecting (Safelink not enabled yet).
    Connecting,
    /// The link is connected and active (Safelink enabled and no timeout).
    Connected,
    /// The link is disconnected; the text is the human-readable reason.
    Disconnected(String),
}

impl ConnectionStatus {
    /// The reason given once a connection has closed: the text of a
    /// disconnected status, or `Still connected!` for any other status.
    pub fn close_reason(&self) -> (reason: String)
        ensures
            match self {
                ConnectionStatus::Disconnected(r) => reason@ == r@,
                _ => reason@ == "Still connected!"@,
            },
    {
        match self {
            ConnectionStatus::Disconnected(r) => r.clone(),
            _ => String::from_str("Still connected!"),
        }
    }
}

} // verus!
