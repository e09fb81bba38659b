//! What goes wrong around the failover logic, and what each failure means
//! for the process: it ends, or it carries on.

use vstd::prelude::*;

verus! {

/// A failure of one of the collaborators of the failover logic.
#[derive(Clone, Copy, Debug, PartialEq, Eq, Structural)]
pub enum Fault {
    /// The process cannot find the path of its own program.
    ExecutablePathUnknown,
    /// The launcher could not start a new process.
    LaunchFailed,
    /// A backup could not bind the rendezvous address, as happens when
    /// another backup holds it already.
    ListenerBindFailed,
    /// A backup could not bound the wait of its receiving endpoint.
    ListenerSetupFailed,
    /// A primary could not bind a local endpoint to send from.
    SenderBindFailed,
    /// A primary could not direct its endpoint to the rendezvous address.
    SenderConnectFailed,
    /// A wait for a datagram ended with nothing received.
    ReceiveTimedOut,
    /// A wait for a datagram ended with another transport error.
    ReceiveFailed,
    /// A datagram carried no counter value.
    MalformedHeartbeat,
    /// A heartbeat could not be sent.
    SendFailed,
}

/// What a failure means for the process.
#[derive(Clone, Copy, Debug, PartialEq, Eq, Structural)]
pub enum Severity {
    /// The process ends at once: nothing is retried and there is no
    /// degraded mode.
    Fatal,
    /// The failure is passed over and the loop goes on.
    Transient,
}

impl Fault {
    /// What the failure means for the process. Failures at start-up and
    /// failures to launch end it; failures to receive, to read or to send
    /// one heartbeat are passed over.
    pub open spec fn classified(self) -> Severity {
        match self {
            Fault::ExecutablePathUnknown => Severity::Fatal,
            Fault::LaunchFailed => Severity::Fatal,
            Fault::ListenerBindFailed => Severity::Fatal,
            Fault::ListenerSetupFailed => Severity::Fatal,
            Fault::SenderBindFailed => Severity::Fatal,
            Fault::SenderConnectFailed => Severity::Fatal,
            Fault::ReceiveTimedOut => Severity::Transient,
            Fault::ReceiveFailed => Severity::Transient,
            Fault::MalformedHeartbeat => Severity::Transient,
            Fault::SendFailed => Severity::Transient,
        }
    }

    /// Whether the failure ends the process.
    pub open spec fn is_fatal(self) -> bool {
        self.classified() is Fatal
    }

    /// Classifies the failure.
    pub fn severity(self) -> (severity: Severity)
        ensures
            severity == self.classified(),
    {
        match self {
            Fault::ExecutablePathUnknown
            | Fault::LaunchFailed
            | Fault::ListenerBindFailed
            | Fault::ListenerSetupFailed
            | Fault::SenderBindFailed
            | Fault::SenderConnectFailed => Severity::Fatal,
            Fault::ReceiveTimedOut
            | Fault::ReceiveFailed
            | Fault::MalformedHeartbeat
            | Fault::SendFailed => Severity::Transient,
        }
    }
}

} // verus!
