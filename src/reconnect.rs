use vstd::prelude::*;

verus! {

/// How a send from the client to the relay failed.
#[derive(Clone, Copy, Debug, PartialEq, Eq, Structural)]
pub enum SendFailure {
    /// The connection was reset by the other side.
    ConnectionReset,
    /// The connection was aborted.
    ConnectionAborted,
    /// Any other failure; the connection may still be usable.
    Other,
}

/// What the client does after a failed send.
#[derive(Clone, Copy, Debug, PartialEq, Eq, Structural)]
pub enum Recovery {
    /// Close the transport and open a new one; this is the given attempt, from 1.
    Reconnect(u32),
    /// The connection is lost and no attempt is left.
    GiveUp,
    /// Keep the connection and go on.
    Ignore,
}

/// Whether a failure means that the connection is lost.
pub open spec fn is_connection_lost(f: SendFailure) -> bool {
    f == SendFailure::ConnectionReset || f == SendFailure::ConnectionAborted
}

/// The client's reconnection policy: at most `max_attempts` reconnections in a
/// row, counted until a connection succeeds.
pub struct ReconnectPolicy {
    pub max_attempts: u32,
    pub attempts: u32,
}

impl ReconnectPolicy {
    /// A policy that allows `max_attempts` reconnections in a row.
    pub fn new(max_attempts: u32) -> (r: ReconnectPolicy)
        ensures
            r.max_attempts == max_attempts,
            r.attempts == 0,
    {
        ReconnectPolicy { max_attempts, attempts: 0 }
    }

    /// Decides what to do after a failed send.
    pub fn on_send_error(&mut self, failure: SendFailure) -> (r: Recovery)
        ensures
            final(self).max_attempts == old(self).max_attempts,
            !is_connection_lost(failure) ==> r == Recovery::Ignore && final(self).attempts
                == old(self).attempts,
            is_connection_lost(failure) && old(self).attempts < old(self).max_attempts ==> r
                == Recovery::Reconnect((old(self).attempts + 1) as u32) && final(self).attempts
                == old(self).attempts + 1,
            is_connection_lost(failure) && old(self).attempts >= old(self).max_attempts ==> r
                == Recovery::GiveUp && final(self).attempts == old(self).attempts,
    {
        match failure {
            SendFailure::Other => Recovery::Ignore,
            _ => {
                if self.attempts < self.max_attempts {
                    self.attempts = self.attempts + 1;
                    Recovery::Reconnect(self.attempts)
                } else {
                    Recovery::GiveUp
                }
            },
        }
    }

    /// A connection succeeded: the count of attempts starts again.
    pub fn on_connected(&mut self)
        ensures
            final(self).max_attempts == old(self).max_attempts,
            final(self).attempts == 0,
    {
        self.attempts = 0;
    }
}

} // verus!
