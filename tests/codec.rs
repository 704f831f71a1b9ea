use httprs::decoder::Decoder;
use httprs::encoder::Encoder;
use httprs::frame::Http2Frame;
use httprs::frame::Http2FrameType;
use httprs::hpack::Biterator;
use httprs::hpack::DynamicTable;
use httprs::hpack::HeaderType;
use httprs::huffman::Huffman;
use httprs::huffman::HuffmanError;
use httprs::integer::read_int;
use httprs::integer::write_int;
use httprs::settings::Http2Settings;
use httprs::websocket::WebSocketFrame;
use httprs::websocket::WebSocketOpcode;

#[test]
fn one_is_one() {
    assert!(1 == 1);
}

#[test]
fn two_is_two() {
    assert!(2 == 2)
}

#[test]
fn four_is_four() {
    assert!(4 == 4);
}

#[test]
fn num_sizes() {
    let int8: u8 = 0;
    let int16: u16 = 0;
    let int32: u32 = 0;
    let int64: u64 = 0;
    let intptr: usize = 0;

    assert_eq!(int8.to_be_bytes().len(), 1);
    assert_eq!(int16.to_be_bytes().len(), 2);
    assert_eq!(int32.to_be_bytes().len(), 4);
    assert_eq!(int64.to_be_bytes().len(), 8);
    assert_eq!(intptr.to_be_bytes().len(), usize::BITS as usize / 8);
}

#[test]
fn websocket_frame() {
    let frame_buff = vec![
        0x82, 0xff,
        0x00, 0x00, 0x00, 0x00, 0x00, 0x00, 0x00, 0x0d,
        0x12, 0x34, 0x56, 0x78,
        0x5a, 0x51, 0x3a, 0x14, 0x7d, 0x18, 0x76, 0x2f, 0x7d, 0x46, 0x3a, 0x1c, 0x6c,
    ];

    let mut frame = WebSocketFrame::from_owned(frame_buff).unwrap();
    let s = String::from_utf8_lossy(&frame.unmask_in_place()).to_string();
    let frame = frame;

    assert_eq!(frame.fin, true);
    assert_eq!(frame.rsv, 0);
    assert_eq!(frame.opcode_byte, 2);
    assert_eq!(frame.masked, true);
    assert_eq!(frame.len, 127);
    assert_eq!(frame.ext_len, 13);
    assert_eq!(s, "Hello, World~");
}

#[test]
fn biterator() {
    let bytes = &[0, 1, 2, 3, 4, 5, 6, 7, 8, 9];
    let bits = [false, false, false, false, false, false, false, false, false, false, false, false, false, false, false, true, false, false, false, false, false, false, true, false, false, false, false, false, false, false, true, true, false, false, false, false, false, true, false, false, false, false, false, false, false, true, false, true, false, false, false, false, false, true, true, false, false, false, false, false, false, true, true, true, false, false, false, false, true, false, false, false, false, false, false, false, true, false, false, true];
    let biter = Biterator::new(bytes).to_vec();

    assert_eq!(&bits as &[bool], biter.as_slice());
}

#[test]
fn hpack_decode() {
    let mut decoder: Decoder<'static> = Decoder::new(4096);
    let encoded = [
        0x82,
        0x85,
        0x26,
        0x40, 0x85, 0x35, 0x52, 0x17, 0xc9, 0x64, 0x85, 0x9c, 0xa3, 0x90, 0xb6, 0x7f,
        0x0, 0x82, 0xa8, 0xe9, 0x85, 0x35, 0x52, 0x17, 0xc9, 0x64,
        0x10, 0x84, 0xa8, 0xbd, 0xcb, 0x67, 0x85, 0x35, 0x52, 0x17, 0xc9, 0x64,
        0x0, 0x86, 0x9e, 0xd9, 0x65, 0xa4, 0x75, 0x7f, 0x85, 0x2d, 0x44, 0x3c, 0x85, 0x93,
        0x0, 0x88, 0xa8, 0xe9, 0x52, 0x7b, 0x65, 0x96, 0x91, 0xd5, 0x85, 0x2d, 0x44, 0x3c, 0x85, 0x93,
    ];
    let decoded: &[(&[u8], &[u8])] = &[(b":method", b"GET"), (b":path", b"/index.html"), (b"indexed", b"header"), (b"not", b"indexed"), (b"never", b"indexed"), (b"huffman", b"encoded"), (b"not huffman", b"encoded")];

    let mut dec = Vec::new();
    let mut pos = 0;

    while pos < encoded.len() {
        let last = decoder.decode(&encoded, &mut pos).unwrap();
        let last = if last.0 != HeaderType::TableSizeChange { (last.1, last.2) } else { continue; };

        dec.push(last.clone());
    }

    let dec_ref = dec.iter().map(|(h, v)| (h.as_slice(), v.as_slice())).collect::<Vec<(&[u8], &[u8])>>();

    assert_eq!(decoded, dec_ref.as_slice());
}

#[test]
fn hpack_encode() {
    let mut encoder: Encoder<'static> = Encoder::new(4096);
    let encoded = [
        0x82,
        0x85,
        0x40, 0x85, 0x35, 0x52, 0x17, 0xc9, 0x64, 0x85, 0x9c, 0xa3, 0x90, 0xb6, 0x7f,
        0x0, 0x82, 0xa8, 0xe9, 0x85, 0x35, 0x52, 0x17, 0xc9, 0x64,
        0x10, 0x84, 0xa8, 0xbd, 0xcb, 0x67, 0x85, 0x35, 0x52, 0x17, 0xc9, 0x64,
        0x0, 0x86, 0x9e, 0xd9, 0x65, 0xa4, 0x75, 0x7f, 0x85, 0x2d, 0x44, 0x3c, 0x85, 0x93,
        0x0, 0xb, 0x6e, 0x6f, 0x74, 0x20, 0x68, 0x75, 0x66, 0x66, 0x6d, 0x61, 0x6e, 0x7, 0x65, 0x6e, 0x63, 0x6f, 0x64, 0x65, 0x64
    ];
    let decoded: &[(HeaderType, &[u8], &[u8], Option<bool>)] = &[
        (HeaderType::Lookup, b":method", b"GET", None),
        (HeaderType::Lookup, b":path", b"/index.html", None),
        (HeaderType::Indexed, b"indexed", b"header", None),
        (HeaderType::NotIndexed, b"not", b"indexed", None),
        (HeaderType::NeverIndexed, b"never", b"indexed", None),
        (HeaderType::NotIndexed, b"huffman", b"encoded", Some(true)),
        (HeaderType::NotIndexed, b"not huffman", b"encoded", Some(false)),
    ];

    let mut buff = Vec::new();

    for &h in decoded {
        encoder.encode(&mut buff, h.0, h.1, h.2, h.3).unwrap();
    }

    assert_eq!(buff.as_slice(), encoded);
}

#[test]
fn http2_frame() {
    let frame_raw = [
        0u8, 0, 19,
        0, 1 | 8 | 32,
        0, 0, 0, 3,
        2,
        0, 0, 0, 1, 2,
        0x68, 0x65, 0x6c, 0x6c, 0x6f, 0x20, 0x77, 0x6f, 0x72, 0x6c, 0x64,
        0x68, 0x69,
    ];

    let frame = Http2Frame::from_owned(frame_raw.to_vec()).unwrap();
    let frame_buff = Http2Frame::create(frame.ftype, frame.flags, frame.stream_id, Some(frame.get_priority()), Some(frame.get_payload()), Some(frame.get_padding()));

    assert_eq!(frame.is_end_headers(), false);
    assert_eq!(frame.is_end_stream(), true);
    assert_eq!(frame.is_padded(), true);
    assert_eq!(frame.is_priority(), true);
    assert_eq!(frame.length, 19);
    assert_eq!(frame.ftype, Http2FrameType::Data);
    assert_eq!(frame.type_byte, 0);
    assert_eq!(frame.flags, 41);
    assert_eq!(frame.stream_id, 3);
    assert_eq!(frame.get_priority(), &[0, 0, 0, 1, 2]);
    assert_eq!(frame.get_payload(), b"hello world");
    assert_eq!(frame.get_padding(), b"hi");

    assert_eq!(frame_buff.as_slice(), &frame_raw);
}

#[test]
fn http2_frame_round_trip_plain() {
    let bytes = Http2Frame::create(Http2FrameType::Headers, 4, 5, None, Some(b"abc"), None);
    assert_eq!(bytes, vec![0, 0, 3, 1, 4, 0, 0, 0, 5, 97, 98, 99]);
    let frame = Http2Frame::from_owned(bytes).unwrap();
    assert_eq!(frame.ftype, Http2FrameType::Headers);
    assert!(frame.is_end_headers());
    assert!(!frame.is_padded());
    assert_eq!(frame.stream_id, 5);
    assert_eq!(frame.get_payload(), b"abc");
    assert_eq!(frame.get_padding(), b"");
}

#[test]
fn http2_frame_reserved_bit_cleared() {
    let bytes = Http2Frame::create(Http2FrameType::Ping, 1, 0x8000_0001, None, Some(&[0; 8]), None);
    assert_eq!(&bytes[5..9], &[0, 0, 0, 1]);
    let frame = Http2Frame::from_owned(bytes).unwrap();
    assert_eq!(frame.stream_id, 1);
    assert!(frame.is_ack());
}

#[test]
fn http2_frame_bad_priority_dropped() {
    let bytes = Http2Frame::create(Http2FrameType::Data, 0, 1, Some(&[1, 2, 3]), Some(b"x"), None);
    assert_eq!(bytes, vec![0, 0, 1, 0, 0, 0, 0, 0, 1, 120]);
}

#[test]
fn http2_frame_truncated_is_rejected() {
    assert!(Http2Frame::from_owned(vec![0, 0, 5, 0, 0, 0, 0, 0, 1, 1, 2]).is_none());
    assert!(Http2Frame::from_owned(vec![0, 0, 0]).is_none());
    assert!(Http2Frame::from_owned(vec![0, 0, 1, 0, 8, 0, 0, 0, 1, 5]).is_none());
}

#[test]
fn http2_frame_type_codes() {
    assert_eq!(Http2FrameType::from_u8(9), Http2FrameType::Continuation);
    assert_eq!(Http2FrameType::from_u8(42), Http2FrameType::Invalid(42));
    assert_eq!(Http2FrameType::WindowUpdate.as_u8(), 8);
}

#[test]
fn settings_round_trip() {
    let mut s = Http2Settings::empty();
    s.max_frame_size = Some(16384);
    s.enable_push = Some(0);
    let raw = s.to_vec();
    assert_eq!(raw, vec![0, 2, 0, 0, 0, 0, 0, 5, 0, 0, 0x40, 0]);
    let back = Http2Settings::from(&raw);
    assert_eq!(back, s);
    assert_eq!(Http2Settings::from_raw(&raw).unwrap(), vec![(2, 0), (5, 16384)]);
    assert!(Http2Settings::from_raw(&[0, 1, 2]).is_none());
    assert_eq!(Http2Settings::from(&[0, 1, 2]), Http2Settings::empty());
}

#[test]
fn settings_later_entry_wins_and_unknown_ignored() {
    let raw = [0, 4, 0, 0, 0, 1, 0, 9, 0, 0, 0, 7, 0, 4, 0, 0, 0, 2];
    let s = Http2Settings::from(&raw);
    assert_eq!(s.initial_window_size, Some(2));
    assert_eq!(s.header_table_size, None);
}

#[test]
fn settings_default_values() {
    let d = Http2Settings::default();
    assert_eq!(d.header_table_size, Some(4096));
    assert_eq!(d.enable_push, Some(1));
    assert_eq!(d.max_concurrent_streams, None);
    assert_eq!(d.initial_window_size, Some(65535));
    assert_eq!(d.max_frame_size, Some(65535));
    assert_eq!(d.max_header_list_size, None);
}

#[test]
fn huffman_round_trip() {
    let h = Huffman::new();
    for s in [&b""[..], b"a", b"www.example.com", b"no-cache", b"custom-value", b"\x00\xff binary \x7f"] {
        let enc = h.encode(s);
        assert_eq!(h.decode(&enc).unwrap(), s.to_vec());
    }
}

#[test]
fn huffman_known_encoding() {
    let h = Huffman::new();
    assert_eq!(h.encode(b"www.example.com"), vec![0xf1, 0xe3, 0xc2, 0xe5, 0xf2, 0x3a, 0x6b, 0xa0, 0xab, 0x90, 0xf4, 0xff]);
    assert_eq!(h.encode(b"no-cache"), vec![0xa8, 0xeb, 0x10, 0x64, 0x9c, 0xbf]);
}

#[test]
fn huffman_padding_errors() {
    let h = Huffman::new();
    assert_eq!(h.decode(&[0xff, 0xff]).unwrap_err(), HuffmanError::PaddingTooLarge);
    assert_eq!(h.decode(&[0x00]).unwrap_err(), HuffmanError::InvalidPadding);
    assert_eq!(h.decode(&[0xff, 0xff, 0xff, 0xff]).unwrap_err(), HuffmanError::EOSInString);
    assert!(Huffman::from(&[(0, 1); 3]).is_none());
}

#[test]
fn integer_examples() {
    let mut out = Vec::new();
    write_int(&mut out, 10, 5, 0);
    assert_eq!(out, vec![10]);
    let mut out = Vec::new();
    write_int(&mut out, 1337, 5, 0);
    assert_eq!(out, vec![31, 154, 10]);
    let mut pos = 0;
    assert_eq!(read_int(&out, 5, &mut pos), Some(1337));
    assert_eq!(pos, 3);
    let mut pos = 0;
    assert_eq!(read_int(&[31, 154], 5, &mut pos), None);
    assert_eq!(pos, 0);
}

#[test]
fn dynamic_table_evicts_oldest() {
    let mut t = DynamicTable::new(100);
    t.add((b"aaaa".to_vec(), b"bbbb".to_vec()));
    t.add((b"cccc".to_vec(), b"dddd".to_vec()));
    assert_eq!(t.size, 80);
    assert_eq!(t.len(), 2);
    t.add((b"eeee".to_vec(), b"ffff".to_vec()));
    assert_eq!(t.len(), 2);
    assert_eq!(t.get(0).unwrap().0, b"eeee");
    assert_eq!(t.get(1).unwrap().0, b"cccc");
    t.resize(50);
    assert_eq!(t.len(), 1);
    assert!(t.size <= t.table_size);
    t.add((vec![0; 100], vec![]));
    assert_eq!(t.len(), 0);
    assert_eq!(t.size, 0);
}

#[test]
fn hpack_indexed_round_trip_keeps_tables_equal() {
    let mut enc: Encoder<'static> = Encoder::new(4096);
    let mut dec: Decoder<'static> = Decoder::new(4096);
    let headers = vec![(b"custom-key".to_vec(), b"custom-value".to_vec()), (b":method".to_vec(), b"GET".to_vec())];
    let block = enc.encode_all_indexed(&headers).unwrap();
    let out = dec.decode_all(&block).unwrap();
    assert_eq!(out, headers);
    assert_eq!(enc.dynamic_table.size, dec.dynamic_table.size);
    assert_eq!(enc.dynamic_table.len(), 1);
    let again = enc.encode_all_indexed(&headers).unwrap();
    assert_eq!(again, vec![0xbe, 0x82]);
    assert_eq!(dec.decode_all(&again).unwrap(), headers);
}

#[test]
fn hpack_lookup_of_unknown_field_fails() {
    let mut enc: Encoder<'static> = Encoder::new(4096);
    let mut buff = Vec::new();
    assert!(enc.encode(&mut buff, HeaderType::Lookup, b"x-unknown", b"1", None).is_err());
    assert!(enc.encode(&mut buff, HeaderType::TableSizeChange, b"x-unknown", b"1", None).is_err());
    assert!(buff.is_empty());
}

#[test]
fn hpack_table_size_update_and_bad_index() {
    let mut dec: Decoder<'static> = Decoder::new(4096);
    let mut pos = 0;
    let r = dec.decode(&[0x3f, 0xe1, 0x1f], &mut pos).unwrap();
    assert_eq!(r.0, HeaderType::TableSizeChange);
    assert_eq!(dec.dynamic_table.table_size, 4096);
    let mut pos = 0;
    assert!(dec.decode(&[0xff, 0x00], &mut pos).is_none());
    assert!(dec.decode_all(&[0x80]).is_none());
}

#[test]
fn websocket_create_and_unmask() {
    let mask = [0x12, 0x34, 0x56, 0x78];
    let bytes = WebSocketFrame::create(true, 0, 1, Some(&mask), b"bin");
    let frame = WebSocketFrame::from_owned(bytes).unwrap();
    assert!(frame.masked);
    assert_eq!(frame.opcode, WebSocketOpcode::Text);
    assert_eq!(frame.get_unmasked(), b"bin".to_vec());
}

#[test]
fn websocket_close_frame() {
    let mut payload = vec![0x03, 0xe8];
    payload.extend_from_slice(b"message");
    let bytes = WebSocketFrame::create(true, 0, 8, None, &payload);
    let frame = WebSocketFrame::from_owned(bytes).unwrap();
    assert_eq!(frame.fin, true);
    assert_eq!(frame.rsv, 0);
    assert_eq!(frame.opcode_byte, 8);
    assert_eq!(frame.masked, false);
    assert_eq!(frame.len, 9);
    assert_eq!(frame.ext_len, 0);
    assert_eq!(frame.get_payload(), b"\x03\xe8message");
}

#[test]
fn websocket_lengths() {
    let p = vec![7u8; 300];
    let bytes = WebSocketFrame::create(false, 0, 2, None, &p);
    assert_eq!(&bytes[..4], &[0x02, 126, 1, 44]);
    let f = WebSocketFrame::from_owned(bytes).unwrap();
    assert_eq!(f.ext_len, 300);
    let p = vec![7u8; 70000];
    let bytes = WebSocketFrame::create(true, 0, 2, Some(&[1, 2, 3, 4]), &p);
    assert_eq!(&bytes[..10], &[0x82, 0xff, 0, 0, 0, 0, 0, 1, 0x11, 0x70]);
    let f = WebSocketFrame::from_owned(bytes).unwrap();
    assert_eq!(f.get_unmasked(), p);
    assert!(WebSocketFrame::from_owned(vec![0x81, 0x05, 1, 2]).is_none());
}

#[test]
fn rfc_huffman_code_is_prefix_free() {
    let h = Huffman::new();
    assert!(h.is_prefix_free());
    assert_eq!(h.eos, (0x3fffffff, 30));
    let mut bad = Huffman::new();
    bad.code_from_symbol[1] = bad.code_from_symbol[0];
    bad.len_from_symbol[1] = bad.len_from_symbol[0];
    assert!(!bad.is_prefix_free());
}

#[test]
fn websocket_control_frames() {
    use_ws();
}

fn use_ws() {
    let p = httprs::websocket::close_payload(1000, b"message").unwrap();
    assert_eq!(p, b"\x03\xe8message".to_vec());
    assert!(httprs::websocket::close_payload(1000, &[0; 124]).unwrap_err().is_invalid());
    assert!(httprs::websocket::control_frame(9, None, &[0; 126]).unwrap_err().is_invalid());
    let f = httprs::websocket::control_frame(8, None, &p).unwrap();
    let frame = WebSocketFrame::from_owned(f).unwrap();
    assert!(!httprs::websocket::control_frame_invalid(&frame));
    assert_eq!(frame.opcode, WebSocketOpcode::ConnectionClose);
    let frag = WebSocketFrame::from_owned(WebSocketFrame::create(false, 0, 9, None, b"x")).unwrap();
    assert!(httprs::websocket::control_frame_invalid(&frag));
    assert_eq!(httprs::websocket::header_size(0x82, 0xff), 14);
    assert_eq!(httprs::websocket::header_size(0x81, 0x05), 2);
    assert_eq!(httprs::websocket::payload_size(&[0x82, 126, 1, 0]), 256);
    assert_eq!(Http2Frame::length_of(&[0, 1, 2, 0, 0, 0, 0, 0, 0]), 258);
}
