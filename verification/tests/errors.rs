use rol::err::{ErrKind, ROLErr};

#[test]
fn messages_name_each_failure() {
    assert_eq!(ROLErr::of(ErrKind::InvalidFormat).message(), "MAC address format invalid");
    assert_eq!(ROLErr::of(ErrKind::TooShort).message(), "MAC address too short");
    assert_eq!(ROLErr::of(ErrKind::TooLong).message(), "MAC address too long");
    assert_eq!(
        ROLErr::of(ErrKind::NetworkInitFailed(10091)).message(),
        "network subsystem initialization failed"
    );
    assert_eq!(ROLErr::of(ErrKind::SocketCreateFailed(1)).message(), "socket creation failed");
    assert_eq!(
        ROLErr::of(ErrKind::SocketOptionFailed(2)).message(),
        "setting the broadcast socket option failed"
    );
    assert_eq!(ROLErr::of(ErrKind::SendFailed(3)).message(), "sending the datagram failed");
}

#[test]
fn platform_codes_are_carried() {
    assert_eq!(ROLErr::of(ErrKind::InvalidFormat).platform_code(), None);
    assert_eq!(ROLErr::of(ErrKind::TooShort).platform_code(), None);
    assert_eq!(ROLErr::of(ErrKind::TooLong).platform_code(), None);
    assert_eq!(ROLErr::of(ErrKind::NetworkInitFailed(10091)).platform_code(), Some(10091));
    assert_eq!(ROLErr::of(ErrKind::SocketCreateFailed(10047)).platform_code(), Some(10047));
    assert_eq!(ROLErr::of(ErrKind::SocketOptionFailed(10042)).platform_code(), Some(10042));
    assert_eq!(ROLErr::of(ErrKind::SendFailed(10065)).platform_code(), Some(10065));
}
