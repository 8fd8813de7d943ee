use session_mux::entry::TabEntry;
use session_mux::error::ErrorKind;
use session_mux::protocol::{
    check_handshake, decode, encode, error_from_code, error_to_code, list_tabs_result, receive,
    spawn_result, Decoded, Pdu, PROTOCOL_VERSION,
};
use session_mux::size::TerminalSize;

fn entry(window_id: u64, tab_id: u64, cols: u16, rows: u16, title: &str) -> TabEntry {
    TabEntry { window_id, tab_id, size: TerminalSize { cols, rows }, title: title.to_string() }
}

fn samples() -> Vec<Pdu> {
    vec![
        Pdu::Hello { version: 1 },
        Pdu::Hello { version: 0xdead_beef },
        Pdu::ListTabs,
        Pdu::TabList { tabs: Vec::new() },
        Pdu::TabList { tabs: vec![entry(1, 1, 80, 24, "a"), entry(2, 5, 132, 43, "b")] },
        Pdu::TabList { tabs: vec![entry(u64::MAX, 0, u16::MAX, 0, "zsh — ~/src ✓")] },
        Pdu::Spawn { window_id: 3, size: TerminalSize { cols: 80, rows: 24 }, command: Vec::new() },
        Pdu::Spawn {
            window_id: 0,
            size: TerminalSize { cols: 1, rows: 2 },
            command: vec!["bash".to_string(), "-l".to_string(), "".to_string()],
        },
        Pdu::Spawned { tab_id: 77 },
        Pdu::Failed { error: ErrorKind::ConnectionFailed },
        Pdu::Failed { error: ErrorKind::HandshakeFailed },
        Pdu::Failed { error: ErrorKind::ProtocolError },
        Pdu::Failed { error: ErrorKind::SpawnFailed },
        Pdu::Failed { error: ErrorKind::DuplicateDomain },
        Pdu::Failed { error: ErrorKind::UnknownDomain },
        Pdu::Failed { error: ErrorKind::UnknownWindow },
    ]
}

#[test]
fn frames_byte_by_byte() {
    assert_eq!(encode(&Pdu::ListTabs), Some(vec![2, 0, 0, 0, 0]));
    assert_eq!(encode(&Pdu::Hello { version: 1 }), Some(vec![1, 4, 0, 0, 0, 1, 0, 0, 0]));
    assert_eq!(
        encode(&Pdu::Hello { version: 0x0102_0304 }),
        Some(vec![1, 4, 0, 0, 0, 4, 3, 2, 1])
    );
    assert_eq!(
        encode(&Pdu::Spawned { tab_id: 0x0102 }),
        Some(vec![5, 8, 0, 0, 0, 2, 1, 0, 0, 0, 0, 0, 0])
    );
    assert_eq!(encode(&Pdu::Failed { error: ErrorKind::SpawnFailed }), Some(vec![6, 1, 0, 0, 0, 4]));
    assert_eq!(
        encode(&Pdu::TabList { tabs: vec![entry(1, 5, 132, 43, "b")] }),
        Some(vec![
            3, 29, 0, 0, 0, // kind and length
            1, 0, 0, 0, // count
            1, 0, 0, 0, 0, 0, 0, 0, // window
            5, 0, 0, 0, 0, 0, 0, 0, // tab
            132, 0, 43, 0, // columns and rows
            1, 0, 0, 0, b'b', // title
        ])
    );
    assert_eq!(
        encode(&Pdu::Spawn {
            window_id: 2,
            size: TerminalSize { cols: 80, rows: 24 },
            command: vec!["sh".to_string()],
        }),
        Some(vec![
            4, 22, 0, 0, 0, // kind and length
            2, 0, 0, 0, 0, 0, 0, 0, // window
            80, 0, 24, 0, // columns and rows
            1, 0, 0, 0, // count
            2, 0, 0, 0, b's', b'h', // word
        ])
    );
}

#[test]
fn decoding_inverts_encoding() {
    for pdu in samples() {
        let bytes = encode(&pdu).unwrap();
        assert_eq!(decode(&bytes), Decoded::Frame { pdu: pdu.clone(), used: bytes.len() });
    }
}

#[test]
fn bytes_behind_a_frame_are_left_alone() {
    for pdu in samples() {
        let mut bytes = encode(&pdu).unwrap();
        let used = bytes.len();
        bytes.extend_from_slice(&[2, 0, 0]);
        assert_eq!(decode(&bytes), Decoded::Frame { pdu: pdu.clone(), used });
    }
}

#[test]
fn every_proper_prefix_of_a_frame_is_incomplete() {
    for pdu in samples() {
        let bytes = encode(&pdu).unwrap();
        for n in 0..bytes.len() {
            assert_eq!(decode(&bytes[..n]), Decoded::Incomplete);
        }
    }
}

#[test]
fn two_frames_in_a_row() {
    let mut bytes = encode(&Pdu::Hello { version: 1 }).unwrap();
    let first = bytes.len();
    bytes.extend(encode(&Pdu::ListTabs).unwrap());
    assert_eq!(decode(&bytes), Decoded::Frame { pdu: Pdu::Hello { version: 1 }, used: first });
    assert_eq!(decode(&bytes[first..]), Decoded::Frame { pdu: Pdu::ListTabs, used: 5 });
}

#[test]
fn unknown_kind_is_malformed() {
    assert_eq!(decode(&[0, 0, 0, 0, 0]), Decoded::Malformed);
    assert_eq!(decode(&[7, 0, 0, 0, 0]), Decoded::Malformed);
    assert_eq!(decode(&[255, 1, 0, 0, 0, 9]), Decoded::Malformed);
}

#[test]
fn payload_of_the_wrong_length_is_malformed() {
    // A `ListTabs` with a payload.
    assert_eq!(decode(&[2, 1, 0, 0, 0, 0]), Decoded::Malformed);
    // A `Hello` with three and with five bytes.
    assert_eq!(decode(&[1, 3, 0, 0, 0, 1, 0, 0]), Decoded::Malformed);
    assert_eq!(decode(&[1, 5, 0, 0, 0, 1, 0, 0, 0, 0]), Decoded::Malformed);
    // A `Spawned` with seven bytes.
    assert_eq!(decode(&[5, 7, 0, 0, 0, 1, 2, 3, 4, 5, 6, 7]), Decoded::Malformed);
    // A `Failed` without and with two bytes.
    assert_eq!(decode(&[6, 0, 0, 0, 0]), Decoded::Malformed);
    assert_eq!(decode(&[6, 2, 0, 0, 0, 1, 1]), Decoded::Malformed);
}

#[test]
fn unknown_error_code_is_malformed() {
    assert_eq!(decode(&[6, 1, 0, 0, 0, 0]), Decoded::Malformed);
    assert_eq!(decode(&[6, 1, 0, 0, 0, 8]), Decoded::Malformed);
}

#[test]
fn tab_list_that_is_cut_short_or_too_long_is_malformed() {
    let good = encode(&Pdu::TabList { tabs: vec![entry(1, 5, 132, 43, "b")] }).unwrap();
    // One entry announced, none there.
    assert_eq!(decode(&[3, 4, 0, 0, 0, 1, 0, 0, 0]), Decoded::Malformed);
    // Two entries announced, one there.
    let mut two = good.clone();
    two[5] = 2;
    assert_eq!(decode(&two), Decoded::Malformed);
    // No entry announced, one there.
    let mut zero = good.clone();
    zero[5] = 0;
    assert_eq!(decode(&zero), Decoded::Malformed);
    // The title is longer than the payload.
    let mut long = good.clone();
    let at = long.len() - 5;
    long[at] = 2;
    assert_eq!(decode(&long), Decoded::Malformed);
}

#[test]
fn title_that_is_not_utf8_is_malformed() {
    let mut bytes = encode(&Pdu::TabList { tabs: vec![entry(1, 5, 132, 43, "b")] }).unwrap();
    let last = bytes.len() - 1;
    bytes[last] = 0xff;
    assert_eq!(decode(&bytes), Decoded::Malformed);
}

#[test]
fn receive_tells_loss_from_nonsense() {
    let bytes = encode(&Pdu::Spawned { tab_id: 9 }).unwrap();
    assert_eq!(receive(&bytes, false), Some(Ok((Pdu::Spawned { tab_id: 9 }, bytes.len()))));
    assert_eq!(receive(&bytes, true), Some(Ok((Pdu::Spawned { tab_id: 9 }, bytes.len()))));
    assert_eq!(receive(&bytes[..6], false), None);
    assert_eq!(receive(&bytes[..6], true), Some(Err(ErrorKind::ConnectionFailed)));
    assert_eq!(receive(&[], false), None);
    assert_eq!(receive(&[], true), Some(Err(ErrorKind::ConnectionFailed)));
    assert_eq!(receive(&[9, 0, 0, 0, 0], false), Some(Err(ErrorKind::ProtocolError)));
    assert_eq!(receive(&[9, 0, 0, 0, 0], true), Some(Err(ErrorKind::ProtocolError)));
}

#[test]
fn error_codes() {
    let all = [
        (ErrorKind::ConnectionFailed, 1),
        (ErrorKind::HandshakeFailed, 2),
        (ErrorKind::ProtocolError, 3),
        (ErrorKind::SpawnFailed, 4),
        (ErrorKind::DuplicateDomain, 5),
        (ErrorKind::UnknownDomain, 6),
        (ErrorKind::UnknownWindow, 7),
    ];
    for (kind, code) in all {
        assert_eq!(error_to_code(kind), code);
        assert_eq!(error_from_code(code), Some(kind));
    }
    assert_eq!(error_from_code(0), None);
    assert_eq!(error_from_code(8), None);
}

#[test]
fn handshake_needs_the_same_version() {
    assert_eq!(PROTOCOL_VERSION, 1);
    assert_eq!(check_handshake(&Pdu::Hello { version: PROTOCOL_VERSION }), Ok(()));
    assert_eq!(check_handshake(&Pdu::Hello { version: 2 }), Err(ErrorKind::HandshakeFailed));
    assert_eq!(
        check_handshake(&Pdu::Failed { error: ErrorKind::HandshakeFailed }),
        Err(ErrorKind::HandshakeFailed)
    );
    assert_eq!(
        check_handshake(&Pdu::Failed { error: ErrorKind::SpawnFailed }),
        Err(ErrorKind::ProtocolError)
    );
    assert_eq!(check_handshake(&Pdu::ListTabs), Err(ErrorKind::ProtocolError));
}

#[test]
fn replies_to_list_tabs() {
    let tabs = vec![entry(1, 1, 80, 24, "a")];
    assert_eq!(list_tabs_result(Pdu::TabList { tabs: tabs.clone() }), Ok(tabs));
    assert_eq!(
        list_tabs_result(Pdu::Failed { error: ErrorKind::UnknownDomain }),
        Err(ErrorKind::UnknownDomain)
    );
    assert_eq!(list_tabs_result(Pdu::Spawned { tab_id: 1 }), Err(ErrorKind::ProtocolError));
    assert_eq!(list_tabs_result(Pdu::ListTabs), Err(ErrorKind::ProtocolError));
}

#[test]
fn replies_to_spawn() {
    assert_eq!(spawn_result(&Pdu::Spawned { tab_id: 4 }), Ok(4));
    assert_eq!(
        spawn_result(&Pdu::Failed { error: ErrorKind::UnknownWindow }),
        Err(ErrorKind::SpawnFailed)
    );
    assert_eq!(spawn_result(&Pdu::TabList { tabs: Vec::new() }), Err(ErrorKind::ProtocolError));
}
