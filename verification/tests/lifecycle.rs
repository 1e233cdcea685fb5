use rol::err::{ErrKind, ROLErr};
use rol::transmit::{Action, BroadcastTarget, Event, Transmission};

/// A test double for the platform socket layer: performs each action the
/// machine requests, recording acquisitions and cleanups, and injects a
/// failure at one chosen action.
struct FakeNet {
    fail_on: Option<(Action, usize)>,
    inits: u32,
    releases: u32,
    opens: u32,
    closes: u32,
    sends: u32,
}

impl FakeNet {
    fn new(fail_on: Option<(Action, usize)>) -> FakeNet {
        FakeNet { fail_on, inits: 0, releases: 0, opens: 0, closes: 0, sends: 0 }
    }

    fn perform(&mut self, action: Action) -> Event {
        if let Some((fail_action, code)) = self.fail_on {
            if fail_action == action {
                return Event::Failed(code);
            }
        }
        match action {
            Action::InitNetwork => self.inits += 1,
            Action::OpenSocket => self.opens += 1,
            Action::EnableBroadcast => {}
            Action::SendPayload => self.sends += 1,
            Action::CloseSocket => self.closes += 1,
            Action::ReleaseNetwork => self.releases += 1,
            Action::Finish => unreachable!(),
        }
        Event::Succeeded
    }
}

fn run(net: &mut FakeNet) -> Result<(), ROLErr> {
    let mut t = Transmission::new();
    let mut steps: u32 = 0;
    while !t.finished() {
        let action = t.next_action();
        let event = net.perform(action);
        t.apply(event);
        steps += 1;
        assert!(steps <= 6, "the lifecycle is linear and bounded");
    }
    t.result()
}

#[test]
fn success_run_sends_once_and_cleans_up() {
    let mut net = FakeNet::new(None);
    assert_eq!(run(&mut net), Ok(()));
    assert_eq!(net.sends, 1);
    assert_eq!(net.inits, 1);
    assert_eq!(net.releases, 1);
    assert_eq!(net.opens, 1);
    assert_eq!(net.closes, 1);
}

#[test]
fn init_failure_is_fatal_and_needs_no_cleanup() {
    let mut net = FakeNet::new(Some((Action::InitNetwork, 10091)));
    assert_eq!(run(&mut net), Err(ROLErr::of(ErrKind::NetworkInitFailed(10091))));
    assert_eq!(net.inits, 0);
    assert_eq!(net.releases, 0);
    assert_eq!(net.opens, 0);
    assert_eq!(net.closes, 0);
    assert_eq!(net.sends, 0);
}

#[test]
fn socket_failure_reports_and_releases_once() {
    let mut net = FakeNet::new(Some((Action::OpenSocket, 10047)));
    assert_eq!(run(&mut net), Err(ROLErr::of(ErrKind::SocketCreateFailed(10047))));
    assert_eq!(net.inits, 1);
    assert_eq!(net.releases, 1);
    assert_eq!(net.opens, 0);
    assert_eq!(net.closes, 0);
    assert_eq!(net.sends, 0);
}

#[test]
fn option_failure_closes_socket_and_releases() {
    let mut net = FakeNet::new(Some((Action::EnableBroadcast, 10042)));
    assert_eq!(run(&mut net), Err(ROLErr::of(ErrKind::SocketOptionFailed(10042))));
    assert_eq!(net.opens, 1);
    assert_eq!(net.closes, 1);
    assert_eq!(net.releases, 1);
    assert_eq!(net.sends, 0);
}

#[test]
fn send_failure_still_cleans_up() {
    let mut net = FakeNet::new(Some((Action::SendPayload, 10065)));
    assert_eq!(run(&mut net), Err(ROLErr::of(ErrKind::SendFailed(10065))));
    assert_eq!(net.opens, 1);
    assert_eq!(net.closes, 1);
    assert_eq!(net.inits, 1);
    assert_eq!(net.releases, 1);
}

#[test]
fn cleanup_failures_never_shadow_the_first_error() {
    let mut net = FakeNet::new(Some((Action::CloseSocket, 10038)));
    assert_eq!(run(&mut net), Ok(()));
    let mut net = FakeNet::new(Some((Action::ReleaseNetwork, 10036)));
    assert_eq!(run(&mut net), Ok(()));
}

#[test]
fn cleanup_is_balanced_for_every_failure_point() {
    let failure_points = [
        None,
        Some((Action::InitNetwork, 7)),
        Some((Action::OpenSocket, 7)),
        Some((Action::EnableBroadcast, 7)),
        Some((Action::SendPayload, 7)),
    ];
    for fail_on in failure_points {
        let mut net = FakeNet::new(fail_on);
        let _ = run(&mut net);
        assert_eq!(net.closes, net.opens, "close calls must match open calls");
        assert_eq!(net.releases, net.inits, "release calls must match init calls");
    }
}

#[test]
fn machine_counters_match_the_double() {
    let mut net = FakeNet::new(Some((Action::EnableBroadcast, 1)));
    let mut t = Transmission::new();
    while !t.finished() {
        let event = net.perform(t.next_action());
        t.apply(event);
    }
    assert_eq!(t.opens, net.opens);
    assert_eq!(t.closes, net.closes);
    assert_eq!(t.releases, net.releases);
}

#[test]
fn broadcast_target_is_fixed() {
    let t = BroadcastTarget::wake_on_lan();
    assert_eq!(
        (t.addr_a, t.addr_b, t.addr_c, t.addr_d),
        (255, 255, 255, 255)
    );
    assert_eq!(t.port, 9);
}
