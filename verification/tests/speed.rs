use protocore::speed::ClientAction;
use protocore::speed::Frame;
use protocore::speed::FrameError;
use protocore::speed::IAmCamera;
use protocore::speed::IAmDispatcher;
use protocore::speed::InMessage;
use protocore::speed::OutMessage;
use protocore::speed::Plate;
use protocore::speed::Role;
use protocore::speed::Ticket;
use protocore::speed::WantHeartbeat;
use protocore::speed::client_step;
use protocore::speed::frame_bytes;
use protocore::speed::next_string;
use protocore::speed::next_u16;
use protocore::speed::next_u16_vec;
use protocore::speed::next_u32;
use protocore::speed::next_u8;
use protocore::speed::try_next;

#[test]
fn field_readers() {
    let b: &[u8] = &[0x12, 0x34, 0x56, 0x78, 0x9a];
    let mut pos = 0;
    assert_eq!(next_u8(b, &mut pos).unwrap(), 0x12);
    assert_eq!(pos, 1);
    assert_eq!(next_u16(b, &mut pos).unwrap(), 0x3456);
    assert_eq!(pos, 3);
    assert!(matches!(next_u32(b, &mut pos), Err(FrameError::Incomplete)));
    assert_eq!(pos, 3);

    let s: &[u8] = &[0x03, b'c', b'a', b'r', 0xff];
    let mut pos = 0;
    assert_eq!(next_string(s, &mut pos).unwrap(), b"car".to_vec());
    assert_eq!(pos, 4);

    let v: &[u8] = &[0x00, 0x01, 0x00, 0x02];
    let mut pos = 0;
    assert_eq!(next_u16_vec(v, &mut pos, 2).unwrap(), vec![1, 2]);
    assert!(matches!(
        next_u16_vec(v, &mut pos, 1),
        Err(FrameError::Incomplete)
    ));
}

#[test]
fn parse_plate() {
    let wire: &[u8] = &[0x20, 0x04, b'T', b'E', b'S', b'T', 0x00, 0x00, 0x00, 0x2a, 0x99];
    let (frame, n) = try_next(wire).unwrap();
    assert_eq!(n, 10);
    match frame {
        Frame::Plate(p, ts) => {
            assert_eq!(p, b"TEST".to_vec());
            assert_eq!(ts, 42);
        }
        _ => panic!("expected a plate frame"),
    }
}

#[test]
fn parse_want_heartbeat_and_camera() {
    let (frame, n) = try_next(&[0x40, 0x00, 0x00, 0x00, 0x0a]).unwrap();
    assert_eq!(n, 5);
    assert!(matches!(frame, Frame::WantHeartbeat(10)));

    let (frame, n) = try_next(&[0x80, 0x00, 0x42, 0x00, 0x64, 0x00, 0x3c]).unwrap();
    assert_eq!(n, 7);
    assert!(matches!(frame, Frame::IAmCamera(0x42, 0x64, 0x3c)));
}

#[test]
fn parse_dispatcher() {
    let (frame, n) = try_next(&[0x81, 0x02, 0x00, 0x01, 0x01, 0x00]).unwrap();
    assert_eq!(n, 6);
    match frame {
        Frame::IAmDispatcher(num, roads) => {
            assert_eq!(num, 2);
            assert_eq!(roads, vec![1, 256]);
        }
        _ => panic!("expected a dispatcher frame"),
    }
}

#[test]
fn parse_waits_for_whole_frame() {
    assert!(matches!(try_next(&[]), Err(FrameError::Incomplete)));
    assert!(matches!(try_next(&[0x20]), Err(FrameError::Incomplete)));
    assert!(matches!(
        try_next(&[0x20, 0x04, b'T', b'E']),
        Err(FrameError::Incomplete)
    ));
    assert!(matches!(
        try_next(&[0x81, 0x02, 0x00, 0x01]),
        Err(FrameError::Incomplete)
    ));
}

#[test]
fn parse_unknown_type() {
    let (frame, n) = try_next(&[0x99, 0x01, 0x02]).unwrap();
    assert_eq!(n, 1);
    match frame {
        Frame::Error(m) => {
            assert_eq!(m, b"unsupported message type received (153)".to_vec());
        }
        _ => panic!("expected an error frame"),
    }
}

#[test]
fn write_frames() {
    assert_eq!(frame_bytes(&Frame::Heartbeat), vec![0x41]);
    assert_eq!(
        frame_bytes(&Frame::Error(b"bad".to_vec())),
        vec![0x10, 0x03, b'b', b'a', b'd']
    );
    assert_eq!(
        frame_bytes(&Frame::Ticket(b"UN1X".to_vec(), 66, 100, 123456, 110, 123816, 10000)),
        vec![
            0x21, 0x04, b'U', b'N', b'1', b'X', 0x00, 0x42, 0x00, 0x64, 0x00, 0x01, 0xe2,
            0x40, 0x00, 0x6e, 0x00, 0x01, 0xe3, 0xa8, 0x27, 0x10,
        ]
    );
}

#[test]
fn message_conversions() {
    let m = InMessage::from_frame(Frame::Plate(b"AA11".to_vec(), 7));
    match m {
        InMessage::Plate(p) => {
            assert_eq!(p.plate, b"AA11".to_vec());
            assert_eq!(p.timestamp, 7);
        }
        _ => panic!("expected a plate message"),
    }

    let t = OutMessage::Ticket(Ticket {
        plate: b"AA11".to_vec(),
        road: 1,
        mile1: 2,
        timestamp1: 3,
        mile2: 4,
        timestamp2: 5,
        speed: 6,
    });
    match t.to_frame() {
        Frame::Ticket(p, road, m1, t1, m2, t2, sp) => {
            assert_eq!(p, b"AA11".to_vec());
            assert_eq!((road, m1, t1, m2, t2, sp), (1, 2, 3, 4, 5, 6));
        }
        _ => panic!("expected a ticket frame"),
    }
}

#[test]
fn registration_state_machine() {
    let cam = IAmCamera { road: 1, mile: 2, limit: 60 };

    // A camera identifies once, then reports plates.
    let (role, act) = client_step(Role::Unidentified, InMessage::IAmCamera(cam));
    assert!(matches!(role, Role::Camera(_)));
    assert!(matches!(act, Some(ClientAction::RegisterCamera(_))));

    let plate = Plate { plate: b"UN1X".to_vec(), timestamp: 9 };
    let (role, act) = client_step(role, InMessage::Plate(plate));
    assert!(matches!(role, Role::Camera(_)));
    match act {
        Some(ClientAction::RecordPlate(c, p)) => {
            assert_eq!(c, cam);
            assert_eq!(p.plate, b"UN1X".to_vec());
        }
        _ => panic!("expected a recorded plate"),
    }

    // Identifying twice after a dispatcher registration is an error.
    let (role, _) = client_step(
        Role::Unidentified,
        InMessage::IAmDispatcher(IAmDispatcher::new(1, vec![1])),
    );
    assert!(matches!(role, Role::Dispatcher));
    let (_, act) = client_step(role, InMessage::IAmCamera(cam));
    match act {
        Some(ClientAction::SendError(m)) => {
            assert_eq!(m, b"client tried to identify twice".to_vec());
        }
        _ => panic!("expected an error"),
    }

    // A plate before identifying is refused.
    let plate = Plate { plate: b"X".to_vec(), timestamp: 0 };
    let (_, act) = client_step(Role::Unidentified, InMessage::Plate(plate));
    assert!(matches!(act, Some(ClientAction::SendError(_))));

    // A zero interval asks for no heartbeats at all.
    let (_, act) = client_step(
        Role::Unidentified,
        InMessage::WantHeartbeat(WantHeartbeat { interval: 0 }),
    );
    assert!(act.is_none());
    let (_, act) = client_step(
        Role::Unidentified,
        InMessage::WantHeartbeat(WantHeartbeat { interval: 10 }),
    );
    assert!(matches!(act, Some(ClientAction::StartHeartbeat(10))));
}
