use httprs::http1::chunk_size;
use httprs::http1::decode_chunked;
use httprs::http1::get_chunk;
use httprs::http1::parse_header_line;
use httprs::http1::parse_request_line;
use httprs::http1::HeaderLine;
use httprs::http1::Need;
use httprs::http1::RequestLine;
use httprs::shared::HttpClient;
use httprs::shared::HttpMethod;
use httprs::shared::HttpResponse;
use httprs::shared::HttpVersion;
use httprs::writer::RequestWriter;
use httprs::writer::ResponseWriter;

/// Drives a request parser over bytes the way the server's read loop does.
fn read_request(bytes: &[u8]) -> HttpClient {
    let mut client = HttpClient::default();
    let mut pos = 0;
    let next_line = |pos: &mut usize| -> Vec<u8> {
        let start = *pos;
        while *pos < bytes.len() && bytes[*pos] != b'\n' {
            *pos += 1;
        }
        if *pos < bytes.len() {
            *pos += 1;
        }
        bytes[start..*pos].to_vec()
    };
    loop {
        match client.need() {
            Need::Done => break,
            Need::Line => {
                let line = next_line(&mut pos);
                client.feed_line(&line);
            }
            Need::ChunkSize => {
                let line = next_line(&mut pos);
                let n = client.feed_chunk_size(&line);
                if n > 0 {
                    let data = bytes[pos..pos + n].to_vec();
                    pos += n;
                    let _ = next_line(&mut pos);
                    client.feed_body(&data, false);
                }
            }
            Need::Exact(n) => {
                let data = bytes[pos..pos + n].to_vec();
                pos += n;
                client.feed_body(&data, true);
            }
            Need::ToEof => {
                let data = bytes[pos..].to_vec();
                pos = bytes.len();
                client.feed_body(&data, true);
            }
        }
    }
    client
}

fn read_response(bytes: &[u8]) -> HttpResponse {
    let mut res = HttpResponse::default();
    let mut pos = 0;
    loop {
        match res.need() {
            Need::Done => break,
            Need::Line => {
                let start = pos;
                while pos < bytes.len() && bytes[pos] != b'\n' {
                    pos += 1;
                }
                pos += 1;
                res.feed_line(&bytes[start..pos]);
            }
            Need::Exact(n) => {
                let data = bytes[pos..pos + n].to_vec();
                pos += n;
                res.feed_body(&data, true);
            }
            Need::ToEof => {
                let data = bytes[pos..].to_vec();
                pos = bytes.len();
                res.feed_body(&data, true);
            }
            Need::ChunkSize => {
                let start = pos;
                while bytes[pos] != b'\n' {
                    pos += 1;
                }
                pos += 1;
                let n = res.feed_chunk_size(&bytes[start..pos]);
                if n > 0 {
                    let data = bytes[pos..pos + n].to_vec();
                    pos += n + 2;
                    res.feed_body(&data, false);
                }
            }
        }
    }
    res
}

#[test]
fn server_client() {
    let mut client = RequestWriter::new();
    client.path = "/test".to_owned();
    let request = client.send(b"").unwrap();
    let seen = read_request(&request);

    assert_eq!(client.path, seen.path);
    assert_eq!(client.method, seen.method);
    assert_eq!(client.version, seen.version);

    let mut server = ResponseWriter::new(seen.version.clone());
    let response = server.close(b"test").unwrap();
    let got = read_response(&response);

    assert_eq!(server.code, got.code);
    assert!("test".as_bytes() == &got.body);
    assert_eq!(server.status, got.status.trim());
}

#[test]
fn echo_request_line() {
    let seen = read_request(b"GET /test HTTP/1.1\r\n\r\n");
    assert!(seen.valid);
    assert_eq!(seen.path, "/test");
    assert_eq!(seen.method, HttpMethod::Get);
    assert_eq!(seen.version, HttpVersion::Http11);
    assert!(seen.head_complete && seen.body_complete);

    let mut server = ResponseWriter::new(HttpVersion::Http11);
    server.set_status(200, "OK".to_owned());
    let bytes = server.close(b"test").unwrap();
    assert_eq!(bytes, b"HTTP/1.1 200 OK\r\nContent-Length: 4\r\n\r\ntest".to_vec());
    let got = read_response(&bytes);
    assert_eq!(got.code, 200);
    assert_eq!(got.body, b"test".to_vec());
}

#[test]
fn chunked_upload() {
    let mut client = RequestWriter::new();
    client.method = HttpMethod::Post;
    client.path = "/up".to_owned();
    let mut wire = client.write(b"hi").unwrap();
    wire.extend(client.send(b"!").unwrap());
    assert_eq!(wire, b"POST /up HTTP/1.1\r\nTransfer-Encoding: chunked\r\n\r\n2\r\nhi\r\n1\r\n!\r\n0\r\n\r\n".to_vec());
    let seen = read_request(&wire);
    assert_eq!(seen.method, HttpMethod::Post);
    assert_eq!(seen.body, b"hi!".to_vec());
    assert!(seen.body_complete);
}

#[test]
fn http09_request() {
    let seen = read_request(b"GET /old\r\n");
    assert_eq!(seen.version, HttpVersion::Http09);
    assert_eq!(seen.path, "/old");
    assert!(seen.head_complete && seen.body_complete);
    let mut server = ResponseWriter::new(HttpVersion::Http09);
    assert_eq!(server.write(b"abc").unwrap(), b"abc".to_vec());
}

#[test]
fn invalid_lines() {
    assert_eq!(parse_request_line(b"GARBAGE\r\n"), RequestLine::Invalid);
    let seen = read_request(b"GARBAGE\r\n");
    assert!(!seen.valid);
    let seen = read_request(b"GET / HTTP/1.1\r\nno colon here\r\n\r\n");
    assert!(!seen.valid);
    assert!(!seen.head_complete);
}

#[test]
fn header_lines() {
    assert_eq!(parse_header_line(b"Content-Type:  text/plain \r\n"), HeaderLine::Field(b"content-type".to_vec(), b"text/plain".to_vec()));
    assert_eq!(parse_header_line(b"\r\n"), HeaderLine::End);
    assert_eq!(parse_header_line(b"x\r\n"), HeaderLine::Invalid);
    let seen = read_request(b"GET / HTTP/1.1\r\nX-A: 1\r\nx-a: 2\r\nHost: h\r\n\r\n");
    assert_eq!(seen.headers.len(), 2);
    assert_eq!(seen.headers[0], ("x-a".to_owned(), vec!["1".to_owned(), "2".to_owned()]));
    assert_eq!(seen.headers[1], ("host".to_owned(), vec!["h".to_owned()]));
}

#[test]
fn content_length_body() {
    let seen = read_request(b"PUT /x HTTP/1.1\r\nContent-Length: 5\r\n\r\nhello");
    assert_eq!(seen.method, HttpMethod::Put);
    assert_eq!(seen.body, b"hello".to_vec());
}

#[test]
fn http10_reads_to_end() {
    let got = read_response(b"HTTP/1.0 200 OK\r\n\r\nall of it");
    assert_eq!(got.version, HttpVersion::Http10);
    assert_eq!(got.body, b"all of it".to_vec());
}

#[test]
fn chunks_and_sizes() {
    assert_eq!(get_chunk(b"hello world, hello!"), b"13\r\nhello world, hello!\r\n".to_vec());
    assert_eq!(get_chunk(&[0u8; 26])[..4], *b"1A\r\n");
    assert_eq!(chunk_size(b"1a\r\n"), 26);
    assert_eq!(chunk_size(b"zz\r\n"), 0);
}

#[test]
fn writer_refuses_after_close() {
    let mut server = ResponseWriter::new(HttpVersion::Http11);
    server.write(b"a").unwrap();
    let tail = server.close(b"b").unwrap();
    assert_eq!(tail, b"1\r\nb\r\n0\r\n\r\n".to_vec());
    assert!(server.write(b"c").unwrap_err().is_connection_closed());
    assert!(server.close(b"c").unwrap_err().is_connection_closed());
}

#[test]
fn unknown_method_and_version_kept() {
    let seen = read_request(b"BREW /pot HTCPCP/1.0\r\n\r\n");
    assert_eq!(seen.method, HttpMethod::Unknown(Some("BREW".to_owned())));
    assert_eq!(seen.version, HttpVersion::Unknown(Some("HTCPCP/1.0".to_owned())));
    assert_eq!(HttpMethod::from("gEt"), HttpMethod::Get);
    assert_eq!(HttpVersion::Http11.to_string_unknown(), "HTTP/1.1");
}

#[test]
fn chunked_body_decodes() {
    let mut wire = get_chunk(b"hi");
    wire.extend(get_chunk(b"!"));
    wire.extend(b"0\r\n\r\n");
    let (body, end) = decode_chunked(&wire).unwrap();
    assert_eq!(body, b"hi!".to_vec());
    assert_eq!(end, wire.len() - 2);
    assert!(decode_chunked(b"5\r\nab").is_none());
}

#[test]
fn h2_heads_to_messages() {
    use_h2();
}

fn use_h2() {
    let mut c = HttpClient::default();
    let fields = vec![
        (b":method".to_vec(), b"POST".to_vec()),
        (b":scheme".to_vec(), b"https".to_vec()),
        (b":authority".to_vec(), b"example.com".to_vec()),
        (b":path".to_vec(), b"/x".to_vec()),
        (b"accept".to_vec(), b"*/*".to_vec()),
    ];
    httprs::h2msg::apply_request_fields(&mut c, fields).unwrap();
    assert_eq!(c.method, HttpMethod::Post);
    assert_eq!(c.scheme.as_deref(), Some("https"));
    assert_eq!(c.host.as_deref(), Some("example.com"));
    assert_eq!(c.path, "/x");
    assert_eq!(c.headers, vec![("accept".to_owned(), vec!["*/*".to_owned()])]);
    let bad = vec![(b"x".to_vec(), vec![0xff])];
    assert!(httprs::h2msg::apply_request_fields(&mut c, bad).unwrap_err().is_invalid_string());

    let mut r = HttpResponse::default();
    httprs::h2msg::apply_response_fields(&mut r, vec![(b":status".to_vec(), b"204".to_vec())]).unwrap();
    assert_eq!(r.code, 204);
    let f = httprs::h2msg::response_head_fields(404, &vec![("server".to_owned(), vec!["t".to_owned()])]);
    assert_eq!(f, vec![(b":status".to_vec(), b"404".to_vec()), (b"server".to_vec(), b"t".to_vec())]);
    let q = httprs::h2msg::request_head_fields(&HttpMethod::Get, &"http".to_owned(), &"h".to_owned(), &"/".to_owned(), &vec![]);
    assert_eq!(q[0], (b":method".to_vec(), b"GET".to_vec()));
    assert_eq!(q.len(), 4);
}

#[test]
fn websocket_upgrade_request() {
    let mut client = RequestWriter::new();
    client.path = "/test".to_owned();
    client.set_header("Host", "localhost");
    let key: Vec<u8> = (1..=16).collect();
    let (k, bytes) = client.websocket_upgrade(&key).unwrap();
    assert_eq!(k, b"AQIDBAUGBwgJCgsMDQ4PEA==".to_vec());
    let seen = read_request(&bytes);
    assert!(seen.headers.iter().any(|(n, v)| n == "sec-websocket-key" && v[0] == "AQIDBAUGBwgJCgsMDQ4PEA=="));
    assert!(seen.headers.iter().any(|(n, v)| n == "upgrade" && v[0] == "websocket"));
    let mut other = RequestWriter::new();
    assert!(other.websocket_upgrade(&[1, 2]).unwrap_err().is_invalid());
}

#[test]
fn websocket() {
    use_websocket();
}

fn use_websocket() {
    let mut client = RequestWriter::new();
    client.set_header("Host", "localhost");
    client.path = "/test".to_owned();
    let key = [7u8; 16];
    let (b64, request) = client.websocket_upgrade(&key).unwrap();

    let server = read_request(&request);
    assert_eq!(server.headers.iter().any(|(n, _)| n == "sec-websocket-key"), true);
    let key_value = server.headers.iter().find(|(n, _)| n == "sec-websocket-key").unwrap().1[0].clone();
    let answer = httprs::upgrade::websocket_accept_response(key_value.as_bytes());
    let got = read_response(&answer);
    assert_eq!(got.code, 101);
    let accept = got.headers.iter().find(|(n, _)| n == "sec-websocket-accept").unwrap().1[0].clone();
    assert!(httprs::upgrade::check_websocket_answer(httprs::upgrade::UpgradeCheck::Strict, &b64, got.code, Some(accept.as_bytes())).is_ok());

    let mask = [0x11, 0x22, 0x33, 0x44];
    let text = httprs::websocket::WebSocketFrame::create(true, 0, 1, Some(&mask), b"bin");
    let mut frame = httprs::websocket::WebSocketFrame::from_owned(text).unwrap();
    frame.unmask_in_place();
    assert_eq!(frame.fin, true);
    assert_eq!(frame.rsv, 0);
    assert_eq!(frame.opcode_byte, 1);
    assert_eq!(frame.masked, true);
    assert_eq!(frame.len, 3);
    assert_eq!(frame.ext_len, 0);
    assert_eq!(frame.get_payload(), b"bin");

    let close = httprs::websocket::close_payload(1000, b"message").unwrap();
    let bytes = httprs::websocket::control_frame(8, None, &close).unwrap();
    let frame = httprs::websocket::WebSocketFrame::from_owned(bytes).unwrap();
    assert_eq!(frame.fin, true);
    assert_eq!(frame.rsv, 0);
    assert_eq!(frame.opcode_byte, 8);
    assert_eq!(frame.masked, false);
    assert_eq!(frame.len, 9);
    assert_eq!(frame.ext_len, 0);
    assert_eq!(frame.get_payload(), b"\x03\xe8message");
}
