//! The socket lifecycle of one broadcast send, as a state machine.
//!
//! The machine owns every decision of the linear lifecycle
//! initialize network stack -> open socket -> enable broadcast -> send ->
//! close socket -> release network stack. A driver performs each requested
//! [`Action`] against the platform socket layer and reports the outcome as
//! an [`Event`]; the machine classifies failures and guarantees that both
//! cleanup steps run on every path on which the matching resource was
//! acquired, and that cleanup outcomes never shadow the first failure.

use vstd::prelude::*;

use crate::err::{ErrKind, ROLErr};

verus! {

/// The destination of one broadcast send: an IPv4 address, given as four
/// octets, and a UDP port. A wake-on-LAN send goes to the limited
/// broadcast address 255.255.255.255 on port 9.
#[derive(Clone, Copy, Debug, PartialEq, Eq, Structural)]
pub struct BroadcastTarget {
    pub addr_a: u8,
    pub addr_b: u8,
    pub addr_c: u8,
    pub addr_d: u8,
    pub port: u16,
}

impl BroadcastTarget {
    /// What a wake-on-LAN destination is: the limited broadcast address
    /// and the conventional wake-on-LAN port.
    pub open spec fn wf(self) -> bool {
        self.addr_a == 255 && self.addr_b == 255 && self.addr_c == 255 && self.addr_d == 255
            && self.port == 9
    }

    /// The destination every send of this library uses.
    pub fn wake_on_lan() -> (t: BroadcastTarget)
        ensures
            t.wf(),
    {
        BroadcastTarget { addr_a: 255, addr_b: 255, addr_c: 255, addr_d: 255, port: 9 }
    }
}

/// Where the lifecycle stands: which action is owed next.
#[derive(Clone, Copy, Debug, PartialEq, Eq, Structural)]
pub enum Stage {
    /// The network stack has not been initialized yet.
    Init,
    /// The stack is up; no socket exists yet.
    Socket,
    /// A socket is open; broadcast permission is not set yet.
    Broadcast,
    /// The socket is broadcast-enabled; the payload has not been sent.
    Send,
    /// The operation is decided; the socket must still be closed.
    Close,
    /// The socket is closed (or was never opened); the stack must still be
    /// released.
    Release,
    /// Every acquired resource has been returned; the result is final.
    Done,
}

/// What the driver must do next against the platform socket layer.
#[derive(Clone, Copy, Debug, PartialEq, Eq, Structural)]
pub enum Action {
    /// Initialize the platform networking subsystem.
    InitNetwork,
    /// Create an IPv4/UDP datagram socket.
    OpenSocket,
    /// Set the broadcast-permission option on the socket.
    EnableBroadcast,
    /// Transmit the payload as one datagram to the broadcast target.
    SendPayload,
    /// Close the open socket. A reported failure is ignored.
    CloseSocket,
    /// Release the networking subsystem. A reported failure is ignored.
    ReleaseNetwork,
    /// Nothing is left to do.
    Finish,
}

/// The driver's report on the action it just performed; a failure carries
/// the platform error code.
#[derive(Clone, Copy, Debug, PartialEq, Eq, Structural)]
pub enum Event {
    Succeeded,
    Failed(usize),
}

/// One broadcast-send lifecycle. The counters record how many times each
/// resource was acquired and returned, so that balanced cleanup is a
/// property of the machine itself.
#[derive(Clone, Copy, Debug, PartialEq, Eq, Structural)]
pub struct Transmission {
    /// Which action is owed next.
    pub stage: Stage,
    /// The first failure encountered, if any; never overwritten.
    pub failure: Option<ErrKind>,
    /// How many times the network stack was initialized successfully.
    pub inits: u32,
    /// How many times the release of the network stack was ordered.
    pub releases: u32,
    /// How many times a socket was opened successfully.
    pub opens: u32,
    /// How many times closing the socket was ordered.
    pub closes: u32,
}

/// The state every fresh lifecycle starts in.
pub open spec fn initial_spec() -> Transmission {
    Transmission {
        stage: Stage::Init,
        failure: None,
        inits: 0,
        releases: 0,
        opens: 0,
        closes: 0,
    }
}

/// The action owed in each stage.
pub open spec fn action_of(stage: Stage) -> Action {
    match stage {
        Stage::Init => Action::InitNetwork,
        Stage::Socket => Action::OpenSocket,
        Stage::Broadcast => Action::EnableBroadcast,
        Stage::Send => Action::SendPayload,
        Stage::Close => Action::CloseSocket,
        Stage::Release => Action::ReleaseNetwork,
        Stage::Done => Action::Finish,
    }
}

/// The whole transition relation of the lifecycle.
///
/// A failure before any resource is acquired ends the run at once; a
/// failure after acquisition routes through the cleanup stages. Events
/// reported for the two cleanup actions are ignored, so a cleanup failure
/// can never shadow the recorded one.
pub open spec fn step_spec(pre: Transmission, ev: Event) -> Transmission {
    match pre.stage {
        Stage::Init => match ev {
            Event::Succeeded => Transmission { stage: Stage::Socket, inits: (pre.inits + 1) as u32, ..pre },
            Event::Failed(c) => Transmission {
                stage: Stage::Done,
                failure: Some(ErrKind::NetworkInitFailed(c)),
                ..pre
            },
        },
        Stage::Socket => match ev {
            Event::Succeeded => Transmission { stage: Stage::Broadcast, opens: (pre.opens + 1) as u32, ..pre },
            Event::Failed(c) => Transmission {
                stage: Stage::Release,
                failure: Some(ErrKind::SocketCreateFailed(c)),
                ..pre
            },
        },
        Stage::Broadcast => match ev {
            Event::Succeeded => Transmission { stage: Stage::Send, ..pre },
            Event::Failed(c) => Transmission {
                stage: Stage::Close,
                failure: Some(ErrKind::SocketOptionFailed(c)),
                ..pre
            },
        },
        Stage::Send => match ev {
            Event::Succeeded => Transmission { stage: Stage::Close, ..pre },
            Event::Failed(c) => Transmission {
                stage: Stage::Close,
                failure: Some(ErrKind::SendFailed(c)),
                ..pre
            },
        },
        Stage::Close => Transmission { stage: Stage::Release, closes: (pre.closes + 1) as u32, ..pre },
        Stage::Release => Transmission { stage: Stage::Done, releases: (pre.releases + 1) as u32, ..pre },
        Stage::Done => pre,
    }
}

impl Transmission {
    /// The invariant of every reachable lifecycle state: the counters track
    /// the stage, no failure is recorded before one happened, and in the
    /// terminal stage every acquired resource has been returned.
    pub open spec fn wf(self) -> bool {
        match self.stage {
            Stage::Init => self.inits == 0 && self.opens == 0 && self.closes == 0
                && self.releases == 0 && self.failure is None,
            Stage::Socket => self.inits == 1 && self.opens == 0 && self.closes == 0
                && self.releases == 0 && self.failure is None,
            Stage::Broadcast => self.inits == 1 && self.opens == 1 && self.closes == 0
                && self.releases == 0 && self.failure is None,
            Stage::Send => self.inits == 1 && self.opens == 1 && self.closes == 0
                && self.releases == 0 && self.failure is None,
            Stage::Close => self.inits == 1 && self.opens == 1 && self.closes == 0
                && self.releases == 0,
            Stage::Release => self.inits == 1 && self.opens == self.closes
                && self.opens <= 1 && self.releases == 0,
            Stage::Done => self.inits == self.releases && self.inits <= 1
                && self.opens == self.closes && self.opens <= 1,
        }
    }

    /// Starts a fresh lifecycle.
    pub fn new() -> (t: Transmission)
        ensures
            t == initial_spec(),
            t.wf(),
    {
        Transmission {
            stage: Stage::Init,
            failure: None,
            inits: 0,
            releases: 0,
            opens: 0,
            closes: 0,
        }
    }

    /// The action the driver must perform next; `Action::Finish` once the
    /// lifecycle is over.
    pub fn next_action(&self) -> (a: Action)
        ensures
            a == action_of(self.stage),
    {
        match self.stage {
            Stage::Init => Action::InitNetwork,
            Stage::Socket => Action::OpenSocket,
            Stage::Broadcast => Action::EnableBroadcast,
            Stage::Send => Action::SendPayload,
            Stage::Close => Action::CloseSocket,
            Stage::Release => Action::ReleaseNetwork,
            Stage::Done => Action::Finish,
        }
    }

    /// Advances the lifecycle by the outcome of the action just performed.
    pub fn apply(&mut self, ev: Event)
        requires
            old(self).wf(),
        ensures
            *final(self) == step_spec(*old(self), ev),
            final(self).wf(),
    {
        match self.stage {
            Stage::Init => match ev {
                Event::Succeeded => {
                    self.stage = Stage::Socket;
                    self.inits = self.inits + 1;
                },
                Event::Failed(c) => {
                    self.stage = Stage::Done;
                    self.failure = Some(ErrKind::NetworkInitFailed(c));
                },
            },
            Stage::Socket => match ev {
                Event::Succeeded => {
                    self.stage = Stage::Broadcast;
                    self.opens = self.opens + 1;
                },
                Event::Failed(c) => {
                    self.stage = Stage::Release;
                    self.failure = Some(ErrKind::SocketCreateFailed(c));
                },
            },
            Stage::Broadcast => match ev {
                Event::Succeeded => {
                    self.stage = Stage::Send;
                },
                Event::Failed(c) => {
                    self.stage = Stage::Close;
                    self.failure = Some(ErrKind::SocketOptionFailed(c));
                },
            },
            Stage::Send => match ev {
                Event::Succeeded => {
                    self.stage = Stage::Close;
                },
                Event::Failed(c) => {
                    self.stage = Stage::Close;
                    self.failure = Some(ErrKind::SendFailed(c));
                },
            },
            Stage::Close => {
                self.stage = Stage::Release;
                self.closes = self.closes + 1;
            },
            Stage::Release => {
                self.stage = Stage::Done;
                self.releases = self.releases + 1;
            },
            Stage::Done => {},
        }
    }

    /// Whether the lifecycle has reached its terminal stage.
    pub fn finished(&self) -> (b: bool)
        ensures
            b == (self.stage == Stage::Done),
    {
        match self.stage {
            Stage::Done => true,
            _ => false,
        }
    }

    /// The operation's outcome: success, or the first failure encountered.
    pub fn result(&self) -> (r: Result<(), ROLErr>)
        requires
            self.stage == Stage::Done,
        ensures
            r == match self.failure {
                None => Result::<(), ROLErr>::Ok(()),
                Some(k) => Result::<(), ROLErr>::Err((ROLErr { kind: k })),
            },
    {
        match self.failure {
            None => Ok(()),
            Some(k) => Err(ROLErr::of(k)),
        }
    }
}

/// Cleanup is balanced on every completed run: when the lifecycle is over,
/// the socket was closed exactly as often as it was opened, and the network
/// stack released exactly as often as it was initialized — whichever stage
/// failed.
pub proof fn lemma_cleanup_balanced(t: Transmission)
    requires
        t.wf(),
        t.stage == Stage::Done,
    ensures
        t.closes == t.opens,
        t.releases == t.inits,
{
}

/// When socket creation fails, the run ends reporting `SocketCreateFailed`
/// with the platform code, the network stack is released exactly once, and
/// no socket is ever closed because none was opened.
pub proof fn lemma_socket_create_failure(c: usize, ev: Event)
    ensures
        ({
            let t = step_spec(
                step_spec(step_spec(initial_spec(), Event::Succeeded), Event::Failed(c)),
                ev,
            );
            &&& t.stage == Stage::Done
            &&& t.failure == Some(ErrKind::SocketCreateFailed(c))
            &&& t.inits == 1 && t.releases == 1
            &&& t.opens == 0 && t.closes == 0
        }),
{
}

/// The all-success run: four successful stages and the two cleanup steps
/// end the lifecycle with no failure and balanced resources.
pub proof fn lemma_success_run(ev_close: Event, ev_release: Event)
    ensures
        ({
            let t4 = step_spec(
                step_spec(
                    step_spec(step_spec(initial_spec(), Event::Succeeded), Event::Succeeded),
                    Event::Succeeded,
                ),
                Event::Succeeded,
            );
            let t = step_spec(step_spec(t4, ev_close), ev_release);
            &&& t.stage == Stage::Done
            &&& t.failure is None
            &&& t.inits == 1 && t.releases == 1
            &&& t.opens == 1 && t.closes == 1
        }),
{
}

} // verus!
