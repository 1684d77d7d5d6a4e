use bz::chaperone::protocol::ControlMessage;
use bz::protocol::{
    decode, decode_length, encode, ClientMessage, DaemonMessage, PtyConfig, PtyInfo, SessionInfo,
};
use bz::wire::DecodeError;

#[test]
fn test_encode_decode_client_message() {
    let msg = ClientMessage::Input {
        pty_id: 0,
        data: b"hello".to_vec(),
    };
    let encoded = encode(&msg).unwrap();

    let (len, consumed) = decode_length(&encoded).unwrap();
    assert_eq!(consumed, 4);

    let decoded: ClientMessage = decode(&encoded[4..4 + len]).unwrap();
    match decoded {
        ClientMessage::Input { pty_id, data } => {
            assert_eq!(pty_id, 0);
            assert_eq!(data, b"hello".to_vec());
        }
        _ => panic!("Wrong message type"),
    }
}

#[test]
fn test_encode_decode_daemon_message() {
    let msg = DaemonMessage::Welcome(SessionInfo {
        session_id: "test-uuid".to_string(),
        config_hash: 12345,
        ptys: vec![PtyInfo {
            id: 0,
            name: "shell".to_string(),
            command: "bash".to_string(),
            cwd: Some("/home".to_string()),
            running: true,
        }],
        focused: 0,
    });
    let encoded = encode(&msg).unwrap();
    let (len, _) = decode_length(&encoded).unwrap();
    let decoded: DaemonMessage = decode(&encoded[4..4 + len]).unwrap();

    match decoded {
        DaemonMessage::Welcome(info) => {
            assert_eq!(info.session_id, "test-uuid");
            assert_eq!(info.ptys.len(), 1);
            assert_eq!(info.ptys[0].name, "shell");
        }
        _ => panic!("Wrong message type"),
    }
}

#[test]
fn frames_are_exactly_these_bytes() {
    assert_eq!(encode(&ClientMessage::Attach).unwrap(), vec![4, 0, 0, 0, 0, 0, 0, 0]);
    assert_eq!(
        encode(&ClientMessage::Resize { pty_id: 2, rows: 24, cols: 300 }).unwrap(),
        vec![16, 0, 0, 0, 3, 0, 0, 0, 2, 0, 0, 0, 0, 0, 0, 0, 24, 0, 44, 1]
    );
    assert_eq!(
        encode(&DaemonMessage::PtyExited { pty_id: 1, exit_code: Some(-1) }).unwrap(),
        vec![17, 0, 0, 0, 5, 0, 0, 0, 1, 0, 0, 0, 0, 0, 0, 0, 1, 255, 255, 255, 255]
    );
    assert_eq!(
        encode(&DaemonMessage::Rejected { reason: "no".to_string() }).unwrap(),
        vec![14, 0, 0, 0, 1, 0, 0, 0, 2, 0, 0, 0, 0, 0, 0, 0, 110, 111]
    );
}

fn client_messages() -> Vec<ClientMessage> {
    vec![
        ClientMessage::Attach,
        ClientMessage::AttachTakeover,
        ClientMessage::Input { pty_id: 7, data: vec![0, 255, 7] },
        ClientMessage::Resize { pty_id: 1, rows: 24, cols: 80 },
        ClientMessage::SetFocus { channel_idx: 3 },
        ClientMessage::Spawn(PtyConfig {
            name: "n\u{e9}".to_string(),
            command: "ls -l".to_string(),
            cwd: None,
        }),
        ClientMessage::Kill { pty_id: 5 },
        ClientMessage::Detach,
        ClientMessage::Quit,
    ]
}

fn daemon_messages() -> Vec<DaemonMessage> {
    let info = PtyInfo {
        id: 3,
        name: "a".to_string(),
        command: "b".to_string(),
        cwd: Some("/c".to_string()),
        running: false,
    };
    vec![
        DaemonMessage::Welcome(SessionInfo {
            session_id: "id".to_string(),
            config_hash: u64::MAX,
            ptys: vec![info.clone(), info.clone()],
            focused: 1,
        }),
        DaemonMessage::Rejected { reason: "\u{1f44b}".to_string() },
        DaemonMessage::History { pty_id: 0, data: vec![1, 2, 3] },
        DaemonMessage::HistoryEnd { pty_id: 0 },
        DaemonMessage::Output { pty_id: 9, data: Vec::new() },
        DaemonMessage::PtyExited { pty_id: 9, exit_code: None },
        DaemonMessage::PtySpawned(info),
        DaemonMessage::Kicked,
        DaemonMessage::Shutdown,
    ]
}

#[test]
fn all_messages_are_read_back() {
    for msg in client_messages() {
        let bytes = encode(&msg).unwrap();
        let back: ClientMessage = decode(&bytes[4..]).unwrap();
        assert_eq!(format!("{:?}", back), format!("{:?}", msg));
    }
    for msg in daemon_messages() {
        let bytes = encode(&msg).unwrap();
        let back: DaemonMessage = decode(&bytes[4..]).unwrap();
        assert_eq!(format!("{:?}", back), format!("{:?}", msg));
    }
}

#[test]
fn frames_one_behind_the_other_are_cut_apart() {
    let mut stream: Vec<u8> = Vec::new();
    for msg in client_messages() {
        stream.extend(encode(&msg).unwrap());
    }
    let mut seen = 0;
    let mut rest: &[u8] = &stream;
    while let Some((len, consumed)) = decode_length(rest) {
        let msg: ClientMessage = decode(&rest[consumed..consumed + len]).unwrap();
        assert_eq!(format!("{:?}", msg), format!("{:?}", client_messages()[seen]));
        seen += 1;
        rest = &rest[consumed + len..];
    }
    assert_eq!(seen, client_messages().len());
    assert!(rest.is_empty());
}

#[test]
fn lengths_take_four_bytes() {
    assert_eq!(decode_length(&[]), None);
    assert_eq!(decode_length(&[1, 2, 3]), None);
    assert_eq!(decode_length(&[1, 2, 0, 0]), Some((513, 4)));
    assert_eq!(decode_length(&[1, 0, 0, 0, 9, 9]), Some((1, 4)));
}

#[test]
fn broken_messages_are_refused() {
    let choice: Result<ClientMessage, DecodeError> = decode(&[77, 0, 0, 0]);
    assert!(matches!(choice, Err(DecodeError::Malformed)));
    let short: Result<ClientMessage, DecodeError> = decode(&[3, 0, 0, 0, 1]);
    assert!(matches!(short, Err(DecodeError::Malformed)));
    let empty: Result<DaemonMessage, DecodeError> = decode(&[]);
    assert!(empty.is_err());
    // A text that is not UTF-8.
    let text: Result<DaemonMessage, DecodeError> =
        decode(&[1, 0, 0, 0, 1, 0, 0, 0, 0, 0, 0, 0, 255]);
    assert!(matches!(text, Err(DecodeError::Malformed)));
}

#[test]
fn control_messages_are_read_back() {
    let all = vec![
        ControlMessage::SpawnPty {
            room_id: "!r:s".to_string(),
            cwd: Some("/tmp".to_string()),
            command: None,
            rows: 24,
            cols: 80,
        },
        ControlMessage::KillPty { pty_id: "x".to_string() },
        ControlMessage::Ready,
        ControlMessage::PtyAttached {
            pty_id: "x".to_string(),
            room_id: "r".to_string(),
            socket: "/s".to_string(),
        },
        ControlMessage::PtyDetached { pty_id: "x".to_string(), room_id: "r".to_string() },
    ];
    for msg in all {
        let bytes = bz::chaperone::protocol::encode(&msg).unwrap();
        let len = u32::from_le_bytes([bytes[0], bytes[1], bytes[2], bytes[3]]);
        assert_eq!(len as usize + 4, bytes.len());
        let back = bz::chaperone::protocol::decode(&bytes[4..]).unwrap();
        assert_eq!(format!("{:?}", back), format!("{:?}", msg));
    }
    assert_eq!(
        bz::chaperone::protocol::encode(&ControlMessage::Ready).unwrap(),
        vec![4, 0, 0, 0, 2, 0, 0, 0]
    );
    assert!(bz::chaperone::protocol::decode(&[9, 0, 0, 0]).is_err());
}
