use httprs::errno::errno_liberr;
use httprs::frame::Http2Frame;
use httprs::frame::Http2FrameType;
use httprs::session::data_frames;
use httprs::session::is_preface;
use httprs::session::next_stream_id;
use httprs::session::peer_stream_allowed;
use httprs::session::preface;
use httprs::session::take_credit;
use httprs::session::apply_window_update;
use httprs::session::Mode;
use httprs::shared::LibError;
use httprs::upgrade::accept_key;
use httprs::upgrade::check_upgrade;
use httprs::upgrade::check_websocket_answer;
use httprs::upgrade::encode_key;
use httprs::upgrade::h2c_upgrade_response;
use httprs::upgrade::websocket_accept_response;
use httprs::upgrade::websocket_key;
use httprs::upgrade::UpgradeCheck;

#[test]
fn websocket_handshake_key() {
    let key: Vec<u8> = (1..=16).collect();
    let b64 = encode_key(&key).unwrap();
    assert_eq!(b64, b"AQIDBAUGBwgJCgsMDQ4PEA==".to_vec());
    let accept = accept_key(&b64);
    assert_eq!(accept, b"C/0nmHhBztSRGR1CwL6Tf4ZjwpY=".to_vec());
    assert!(check_websocket_answer(UpgradeCheck::Strict, &b64, 101, Some(&accept)).is_ok());
    assert!(encode_key(&[1, 2, 3]).unwrap_err().is_invalid());
}

#[test]
fn websocket_rfc_sample_accept() {
    assert_eq!(accept_key(b"dGhlIHNhbXBsZSBub25jZQ=="), b"s3pPLMBiTxaQ9kYGzzhZRbK+xOo=".to_vec());
    let resp = websocket_accept_response(b"dGhlIHNhbXBsZSBub25jZQ==");
    assert_eq!(resp, b"HTTP/1.1 101 Switching Protocols\r\nUpgrade: websocket\r\nConnection: Upgrade\r\nSec-WebSocket-Accept: s3pPLMBiTxaQ9kYGzzhZRbK+xOo=\r\n\r\n".to_vec());
}

#[test]
fn upgrade_checks() {
    assert!(check_upgrade(UpgradeCheck::Strict, 418, None, b"x").unwrap_err().is_not_accepted());
    assert!(check_upgrade(UpgradeCheck::Strict, 101, Some(b"y"), b"x").unwrap_err().is_invalid_upgrade());
    assert!(check_upgrade(UpgradeCheck::Strict, 101, None, b"x").unwrap_err().is_invalid_upgrade());
    assert!(check_upgrade(UpgradeCheck::Lazy, 101, None, b"x").is_ok());
    assert!(check_upgrade(UpgradeCheck::Lazy, 200, None, b"x").unwrap_err().is_not_accepted());
    assert!(check_upgrade(UpgradeCheck::Unchecked, 500, None, b"x").is_ok());
}

#[test]
fn random_keys_are_base64_of_sixteen_bytes() {
    let a = websocket_key();
    let b = websocket_key();
    assert_eq!(a.len(), 24);
    assert!(a.ends_with(b"=="));
    assert_ne!(a, b);
}

#[test]
fn h2c_response_bytes() {
    assert_eq!(h2c_upgrade_response(), b"HTTP/1.1 101 Switching Protocols\r\nConnection: Upgrade\r\nUpgrade: h2c\r\n\r\n".to_vec());
}

#[test]
fn preface_bytes() {
    assert_eq!(preface(), b"PRI * HTTP/2.0\r\n\r\nSM\r\n\r\n".to_vec());
    assert!(is_preface(b"PRI * HTTP/2.0\r\n\r\nSM\r\n\r\n"));
    assert!(!is_preface(b"PRI * HTTP/2.0\r\n\r\nSM\r\n\r"));
}

#[test]
fn stream_ids() {
    assert_eq!(next_stream_id(Mode::Client, 0), Some(1));
    assert_eq!(next_stream_id(Mode::Client, 1), Some(3));
    assert_eq!(next_stream_id(Mode::Server, 1), Some(2));
    assert_eq!(next_stream_id(Mode::Server, 2), Some(4));
    assert_eq!(next_stream_id(Mode::Ambiguous, 4), Some(5));
    assert_eq!(next_stream_id(Mode::Client, 0x7fff_ffff), None);
    assert!(peer_stream_allowed(Mode::Server, 3));
    assert!(!peer_stream_allowed(Mode::Server, 2));
    assert!(Mode::Client.is_client() && !Mode::Client.is_server());
}

#[test]
fn flow_control_credit() {
    let mut conn: i64 = 100;
    let mut stream: i64 = 30;
    assert_eq!(take_credit(50, &mut conn, &mut stream), 30);
    assert_eq!((conn, stream), (70, 0));
    assert_eq!(take_credit(50, &mut conn, &mut stream), 0);
    assert_eq!((conn, stream), (70, 0));
    let mut neg: i64 = -5;
    let mut s2: i64 = 10;
    assert_eq!(take_credit(5, &mut neg, &mut s2), 0);
    assert_eq!(apply_window_update(10, 5), Some(15));
    assert_eq!(apply_window_update(0x7fff_fff0, 0x20), None);
}

#[test]
fn data_frames_respect_max_frame_size() {
    let buf = vec![9u8; 10];
    let wire = data_frames(1, &buf, 4);
    let mut pos = 0;
    let mut sizes = vec![];
    while pos < wire.len() {
        let len = ((wire[pos] as usize) << 16) | ((wire[pos + 1] as usize) << 8) | wire[pos + 2] as usize;
        let f = Http2Frame::from_owned(wire[pos..pos + 9 + len].to_vec()).unwrap();
        assert_eq!(f.ftype, Http2FrameType::Data);
        sizes.push(f.get_payload().len());
        pos += 9 + len;
    }
    assert_eq!(sizes, vec![4, 4, 2]);
    assert!(data_frames(1, &[], 4).is_empty());
}

#[test]
fn error_numbers() {
    assert_eq!(errno_liberr(&LibError::ProtocolError), 0x114);
    assert_eq!(errno_liberr(&LibError::InvalidString), 0x110);
    let io = LibError::Io(std::io::Error::from_raw_os_error(2));
    assert_eq!(errno_liberr(&io), 2 | 0x200);
    assert!(io.io().is_some());
    assert!(LibError::Goaway.is_goaway());
}
