//! The closed set of failures a wake-on-LAN operation can report.

use vstd::prelude::*;

verus! {

/// Classification of a failure.
///
/// The first three kinds classify a rejected hardware-address string; the
/// remaining four report a networking failure and carry the platform
/// error code for diagnostics.
#[derive(Clone, Copy, Debug, PartialEq, Eq, Structural)]
pub enum ErrKind {
    /// A hardware-address segment is not valid hexadecimal.
    InvalidFormat,
    /// Fewer than six hardware-address segments were found.
    TooShort,
    /// More than six hardware-address segments were found.
    TooLong,
    /// The platform networking subsystem could not be initialized.
    NetworkInitFailed(usize),
    /// No datagram socket could be created.
    SocketCreateFailed(usize),
    /// The broadcast option could not be set on the socket.
    SocketOptionFailed(usize),
    /// The send call reported failure.
    SendFailed(usize),
}

/// The error the operation reports: one classified failure, constructed at
/// the point of detection and propagated unchanged.
#[derive(Clone, Copy, Debug, PartialEq, Eq, Structural)]
pub struct ROLErr {
    pub kind: ErrKind,
}

impl ROLErr {
    /// Wraps a classified failure.
    pub fn of(kind: ErrKind) -> (e: ROLErr)
        ensures
            e.kind == kind,
    {
        ROLErr { kind }
    }

    /// The platform error code carried by a networking failure, if any.
    pub open spec fn platform_code_spec(self) -> Option<usize> {
        match self.kind {
            ErrKind::NetworkInitFailed(c) => Some(c),
            ErrKind::SocketCreateFailed(c) => Some(c),
            ErrKind::SocketOptionFailed(c) => Some(c),
            ErrKind::SendFailed(c) => Some(c),
            _ => None,
        }
    }

    /// Returns the platform error code of a networking failure.
    pub fn platform_code(&self) -> (c: Option<usize>)
        ensures
            c == self.platform_code_spec(),
    {
        match self.kind {
            ErrKind::NetworkInitFailed(c) => Some(c),
            ErrKind::SocketCreateFailed(c) => Some(c),
            ErrKind::SocketOptionFailed(c) => Some(c),
            ErrKind::SendFailed(c) => Some(c),
            _ => None,
        }
    }

    /// The fixed human-readable description of each failure kind.
    pub open spec fn message_spec(self) -> Seq<char> {
        match self.kind {
            ErrKind::InvalidFormat => "MAC address format invalid"@,
            ErrKind::TooShort => "MAC address too short"@,
            ErrKind::TooLong => "MAC address too long"@,
            ErrKind::NetworkInitFailed(_) => "network subsystem initialization failed"@,
            ErrKind::SocketCreateFailed(_) => "socket creation failed"@,
            ErrKind::SocketOptionFailed(_) => "setting the broadcast socket option failed"@,
            ErrKind::SendFailed(_) => "sending the datagram failed"@,
        }
    }

    /// Renders the failure as a fixed message; the platform code, where one
    /// is carried, is reported separately by `platform_code`.
    pub fn message(&self) -> (m: &'static str)
        ensures
            m@ == self.message_spec(),
    {
        match self.kind {
            ErrKind::InvalidFormat => "MAC address format invalid",
            ErrKind::TooShort => "MAC address too short",
            ErrKind::TooLong => "MAC address too long",
            ErrKind::NetworkInitFailed(_) => "network subsystem initialization failed",
            ErrKind::SocketCreateFailed(_) => "socket creation failed",
            ErrKind::SocketOptionFailed(_) => "setting the broadcast socket option failed",
            ErrKind::SendFailed(_) => "sending the datagram failed",
        }
    }
}

} // verus!
