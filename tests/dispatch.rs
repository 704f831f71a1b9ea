use httprs::dispatch::header_frames;
use httprs::dispatch::ping_frame;
use httprs::dispatch::window_update_frame;
use httprs::dispatch::goaway_frame;
use httprs::dispatch::priority_frame;
use httprs::dispatch::rst_stream_frame;
use httprs::dispatch::settings_frame;
use httprs::dispatch::SessionCore;
use httprs::encoder::Encoder;
use httprs::frame::Http2Frame;
use httprs::frame::Http2FrameType;
use httprs::session::Mode;
use httprs::settings::Http2Settings;

fn frame(bytes: Vec<u8>) -> Http2Frame {
    Http2Frame::from_owned(bytes).unwrap()
}

fn headers_block(h: &[(&[u8], &[u8])]) -> Vec<u8> {
    let mut enc: Encoder<'static> = Encoder::new(4096);
    let list: Vec<(Vec<u8>, Vec<u8>)> = h.iter().map(|(a, b)| (a.to_vec(), b.to_vec())).collect();
    enc.encode_all(&list).unwrap()
}

#[test]
fn server_opens_stream_on_headers_and_takes_data() {
    let mut s = SessionCore::new(Mode::Server, true, Http2Settings::default());
    let block = headers_block(&[(b":method", b"GET"), (b":path", b"/")]);
    let f = frame(Http2Frame::create(Http2FrameType::Headers, 4, 1, None, Some(&block), None));
    let out = s.handle(&f).unwrap();
    assert_eq!(out.opened, Some(1));
    assert_eq!(s.streams[0].headers, vec![(b":method".to_vec(), b"GET".to_vec()), (b":path".to_vec(), b"/".to_vec())]);
    let d = frame(Http2Frame::create(Http2FrameType::Data, 1, 1, None, Some(b"abc"), None));
    let out = s.handle(&d).unwrap();
    assert_eq!(s.streams[0].body, b"abc".to_vec());
    assert!(s.streams[0].end_body);
    let mut expect = window_update_frame(0, 3);
    expect.extend(window_update_frame(1, 3));
    assert_eq!(out.reply, expect);
}

#[test]
fn headers_split_over_continuation() {
    let mut s = SessionCore::new(Mode::Server, false, Http2Settings::default());
    let block = headers_block(&[(b":method", b"POST"), (b"x-long", b"0123456789abcdef")]);
    let wire = header_frames(Http2FrameType::Headers, 3, false, &[], &block, 8);
    let mut pos = 0;
    let mut opened = None;
    let mut count = 0;
    while pos < wire.len() {
        let len = ((wire[pos] as usize) << 16) | ((wire[pos + 1] as usize) << 8) | wire[pos + 2] as usize;
        assert!(len <= 8);
        let f = frame(wire[pos..pos + 9 + len].to_vec());
        if count > 0 {
            assert_eq!(f.ftype, Http2FrameType::Continuation);
        }
        let out = s.handle(&f).unwrap();
        if out.opened.is_some() {
            opened = out.opened;
        }
        pos += 9 + len;
        count += 1;
    }
    assert!(count > 1);
    assert_eq!(opened, Some(3));
    assert_eq!(s.streams[0].headers[1], (b"x-long".to_vec(), b"0123456789abcdef".to_vec()));
}

#[test]
fn ping_gets_ack_and_goaway_is_stored() {
    let mut s = SessionCore::new(Mode::Client, true, Http2Settings::default());
    let p = frame(ping_frame(false, &[1, 2, 3, 4, 5, 6, 7, 8]));
    let out = s.handle(&p).unwrap();
    assert_eq!(out.reply, ping_frame(true, &[1, 2, 3, 4, 5, 6, 7, 8]));
    let ack = frame(ping_frame(true, &[0; 8]));
    assert!(s.handle(&ack).unwrap().reply.is_empty());
    let g = frame(goaway_frame(7, 0, b"bye"));
    s.handle(&g).unwrap();
    assert!(s.goaway);
    assert_eq!(s.goaway_payload.as_ref().unwrap()[8..].to_vec(), b"bye".to_vec());
}

#[test]
fn window_updates_and_overflow() {
    let mut s = SessionCore::new(Mode::Client, true, Http2Settings::default());
    let w = frame(window_update_frame(0, 100));
    s.handle(&w).unwrap();
    assert_eq!(s.window, 65635);
    let big = frame(window_update_frame(0, 0x7fff_0000));
    assert!(s.handle(&big).unwrap_err().is_protocol_error());
    assert!(s.handle(&w).unwrap_err().is_protocol_error());
}

#[test]
fn unknown_stream_and_reset() {
    let mut s = SessionCore::new(Mode::Server, true, Http2Settings::default());
    let d = frame(Http2Frame::create(Http2FrameType::Data, 0, 9, None, Some(b"x"), None));
    assert!(s.handle(&d).unwrap_err().is_invalid_stream());
    let block = headers_block(&[(b":method", b"GET")]);
    s.handle(&frame(Http2Frame::create(Http2FrameType::Headers, 4, 1, None, Some(&block), None))).unwrap();
    s.handle(&frame(rst_stream_frame(1, 8))).unwrap();
    assert!(s.streams[0].reset);
    assert!(s.handle(&frame(priority_frame(1, 0, 16))).is_ok());
}

#[test]
fn settings_are_merged() {
    let mut s = SessionCore::new(Mode::Client, false, Http2Settings::default());
    let mut upd = Http2Settings::empty();
    upd.max_frame_size = Some(32768);
    s.handle(&frame(settings_frame(&upd))).unwrap();
    assert_eq!(s.settings.max_frame_size, Some(32768));
    assert_eq!(s.settings.header_table_size, Some(4096));
    let mut strict = SessionCore::new(Mode::Client, true, Http2Settings::default());
    let bad = frame(Http2Frame::create(Http2FrameType::Settings, 0, 0, None, Some(&[0, 9, 0, 0, 0, 1]), None));
    assert!(strict.handle(&bad).unwrap_err().is_protocol_error());
}

#[test]
fn bad_header_block_fails_the_session() {
    let mut s = SessionCore::new(Mode::Server, true, Http2Settings::default());
    let f = frame(Http2Frame::create(Http2FrameType::Headers, 4, 1, None, Some(&[0xff, 0x00]), None));
    assert!(s.handle(&f).unwrap_err().is_protocol_error());
    let p = frame(ping_frame(false, &[0; 8]));
    assert!(s.handle(&p).unwrap_err().is_protocol_error());
}

#[test]
fn send_state_of_streams() {
    let mut c = SessionCore::new(Mode::Client, true, Http2Settings::default());
    assert!(c.begin_send_headers(1, false).is_ok());
    assert!(!c.streams[0].new);
    assert!(c.begin_send_headers(1, false).unwrap_err().is_invalid_stream());
    assert!(c.begin_send_data(1, true).is_ok());
    assert!(c.begin_send_data(1, false).unwrap_err().is_stream_closed());
    assert!(c.begin_send_data(7, false).unwrap_err().is_invalid_stream());
    assert!(c.begin_push_promise(1, 2).unwrap_err().is_protocol_error());

    let mut s = SessionCore::new(Mode::Server, true, Http2Settings::default());
    assert!(s.begin_send_headers(1, false).unwrap_err().is_invalid_stream());
    let block = headers_block(&[(b":method", b"GET")]);
    s.handle(&frame(Http2Frame::create(Http2FrameType::Headers, 5, 1, None, Some(&block), None))).unwrap();
    assert!(s.begin_push_promise(1, 2).is_ok());
    assert_eq!(s.streams[1].associated, Some(1));
    assert!(s.begin_push_promise(1, 2).unwrap_err().is_invalid_stream());
    assert!(s.begin_send_headers(1, true).is_ok());
    assert!(s.begin_send_headers(1, true).unwrap_err().is_stream_closed());
}

#[test]
fn client_takes_push_promise() {
    let mut c = SessionCore::new(Mode::Client, true, Http2Settings::default());
    c.begin_send_headers(1, true).unwrap();
    let block = headers_block(&[(b":path", b"/style.css")]);
    let wire = header_frames(Http2FrameType::PushPromise, 1, false, &[0, 0, 0, 2], &block, 16384);
    let out = c.handle(&frame(wire)).unwrap();
    assert_eq!(out.opened, Some(2));
    assert_eq!(c.streams[1].associated, Some(1));
    assert_eq!(c.streams[1].push_headers, vec![(b":path".to_vec(), b"/style.css".to_vec())]);
    let again = header_frames(Http2FrameType::PushPromise, 1, false, &[0, 0, 0, 2], &block, 16384);
    assert!(c.handle(&frame(again)).unwrap_err().is_protocol_error());
}

#[test]
fn end_stream_on_last_header_fragment() {
    let wire = header_frames(Http2FrameType::Headers, 1, true, &[], &[1, 2, 3], 2);
    let first = frame(wire[0..11].to_vec());
    assert_eq!(first.ftype, Http2FrameType::Headers);
    assert_eq!(first.flags, 0);
    let last = frame(wire[11..].to_vec());
    assert_eq!(last.ftype, Http2FrameType::Continuation);
    assert_eq!(last.flags, 5);
    let single = frame(header_frames(Http2FrameType::Headers, 1, true, &[], &[1], 2));
    assert_eq!(single.flags, 5);
}

#[test]
fn stream_window_updates_and_data_credit() {
    let mut c = SessionCore::new(Mode::Client, true, Http2Settings::default());
    c.begin_send_headers(1, false).unwrap();
    assert!(c.handle(&frame(window_update_frame(3, 10))).unwrap_err().is_invalid_stream());
    c.handle(&frame(window_update_frame(1, 10))).unwrap();
    assert_eq!(c.streams[0].window, 65545);
    assert!(c.handle(&frame(window_update_frame(1, 0x7fff_fff0))).unwrap_err().is_protocol_error());
    let mut d = SessionCore::new(Mode::Client, true, Http2Settings::default());
    d.begin_send_headers(1, false).unwrap();
    d.begin_send_data(1, false).unwrap();
    assert_eq!(d.next_data_range(1, 10, 100).unwrap(), (10, 100));
    assert_eq!(d.window, 65535 - 90);
    assert_eq!(d.streams[0].window, 65535 - 90);
    assert!(d.next_data_range(9, 0, 1).unwrap_err().is_invalid_stream());
}
