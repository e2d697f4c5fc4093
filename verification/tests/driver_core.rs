//! The core of a step-by-step driver, by itself.

use mzmq::connection::{Connection, State};
use mzmq::io::driver::{Action, DriverCore};

/// 64-byte ZMTP 3.1 NULL greeting as a SUB peer would send it.
fn sub_greeting() -> [u8; 64] {
    let mut g = [0u8; 64];
    g[0] = 0xFF;
    g[9] = 0x7F;
    g[10] = 0x03;
    g[11] = 0x01;
    g[12] = b'N';
    g[13] = b'U';
    g[14] = b'L';
    g[15] = b'L';
    g
}

/// 27-byte READY command frame with `Socket-Type = SUB`.
fn sub_ready() -> [u8; 27] {
    [
        0x04, 0x19, 0x05, 0x52, 0x45, 0x41, 0x44, 0x59, 0x0B, 0x53, 0x6F, 0x63, 0x6B, 0x65, 0x74,
        0x2D, 0x54, 0x79, 0x70, 0x65, 0x00, 0x00, 0x00, 0x03, 0x53, 0x55, 0x42,
    ]
}

/// Build a ZMTP 3.1 SUBSCRIBE command frame for the given prefix.
fn sub_subscribe(prefix: &[u8]) -> Vec<u8> {
    let name = b"SUBSCRIBE";
    let body_len = 1 + name.len() + prefix.len();
    let mut f = Vec::new();
    f.push(0x04);
    f.push(body_len as u8);
    f.push(name.len() as u8);
    f.extend_from_slice(name);
    f.extend_from_slice(prefix);
    f
}

fn make_core() -> DriverCore<8, 32, 512> {
    let mut conn = Connection::new();
    let mut buf = [0u8; 64];
    conn.write_greeting(&mut buf).unwrap();
    DriverCore::new_null(conn)
}

fn feed_all(core: &mut DriverCore<8, 32, 512>, data: &[u8]) {
    let slot = core.rx_slot();
    assert!(data.len() <= slot.len());
    slot[..data.len()].copy_from_slice(data);
    core.advance_rx(data.len());
}

#[test]
fn core_null_handshake() {
    let mut core = make_core();

    assert!(matches!(core.step(), Ok(Action::Read)));

    let mut peer = Vec::new();
    peer.extend_from_slice(&sub_greeting());
    peer.extend_from_slice(&sub_ready());
    feed_all(&mut core, &peer);

    match core.step() {
        Ok(Action::Write(bytes)) => {
            assert_eq!(bytes.len(), 53);
        }
        other => panic!("expected Write(greeting_rest), got {other:?}"),
    }

    match core.step() {
        Ok(Action::Write(bytes)) => {
            assert_eq!(bytes[0], 0x04);
            assert_eq!(&bytes[3..8], b"READY");
        }
        other => panic!("expected Write(READY), got {other:?}"),
    }

    match core.step() {
        Ok(Action::Established) => {}
        other => panic!("expected Established, got {other:?}"),
    }

    assert_eq!(*core.conn().state(), State::Established);
}

#[test]
fn core_feed_error_writes_error_frame() {
    let mut core = make_core();

    feed_all(&mut core, &sub_greeting());
    assert!(matches!(core.step(), Ok(Action::Write(_)))); // greeting_rest
    assert!(matches!(core.step(), Ok(Action::Write(_)))); // READY

    let push_ready = [
        0x04u8, 0x1A, 0x05, b'R', b'E', b'A', b'D', b'Y', 0x0B, b'S', b'o', b'c', b'k', b'e',
        b't', b'-', b'T', b'y', b'p', b'e', 0x00, 0x00, 0x00, 0x04, b'P', b'U', b'S', b'H',
    ];
    feed_all(&mut core, &push_ready);

    match core.step() {
        Ok(Action::Write(bytes)) => {
            assert_eq!(bytes[0], 0x04);
            assert_eq!(&bytes[3..8], b"ERROR");
        }
        other => panic!("expected Write(ERROR), got {other:?}"),
    }

    assert!(core.step().is_err());
    assert_eq!(*core.conn().state(), State::Failed);
}

#[test]
fn core_chunked_greeting_completes_handshake() {
    let mut core = make_core();

    // Feed greeting in two chunks (first 11 bytes, then the rest)
    feed_all(&mut core, &sub_greeting()[..11]);
    feed_all(&mut core, &sub_greeting()[11..]);
    feed_all(&mut core, &sub_ready());

    // Process greeting_rest
    match core.step() {
        Ok(Action::Write(bytes)) => {
            assert_eq!(bytes.len(), 53);
        }
        other => panic!("expected Write(53), got {other:?}"),
    }

    // Write READY
    match core.step() {
        Ok(Action::Write(bytes)) => {
            assert_eq!(bytes[0], 0x04);
        }
        other => panic!("expected Write(READY), got {other:?}"),
    }

    // Established
    match core.step() {
        Ok(Action::Established) => {}
        other => panic!("expected Established, got {other:?}"),
    }

    assert_eq!(*core.conn().state(), State::Established);
}

#[test]
fn core_subscribe_after_established() {
    let mut core = make_core();

    let mut peer = Vec::new();
    peer.extend_from_slice(&sub_greeting());
    peer.extend_from_slice(&sub_ready());
    peer.extend_from_slice(&sub_subscribe(b"foo"));
    feed_all(&mut core, &peer);

    assert!(matches!(core.step(), Ok(Action::Write(_)))); // greeting_rest
    assert!(matches!(core.step(), Ok(Action::Write(_)))); // READY
    assert!(matches!(core.step(), Ok(Action::Established)));

    assert!(matches!(core.step(), Ok(Action::Read)));

    let (_, th_n, _, ph_n) = core
        .publish_headers(b"foo", b"data")
        .unwrap()
        .expect("subscribed");
    let n = th_n + b"foo".len() + ph_n + b"data".len();
    assert!(n > 0);
    assert_eq!(n, 2 + 3 + 2 + 4);
}
