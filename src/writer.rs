use vstd::prelude::*;
use vstd::utf8::encode_utf8;
use crate::http1::chunk_spec;
use crate::http1::get_chunk;
use crate::http1::last_chunk;
use crate::http1::last_chunk_spec;
use crate::http1::find_header;
use crate::http1::names_unique;
use crate::http1::header_index;
use crate::http1::lemma_header_index_unique;
use crate::shared::HttpMethod;
use crate::shared::HttpVersion;
use crate::shared::LibError;
use crate::shared::version_text;
use crate::text::digits_of;
use crate::text::format_number;
use crate::text::ascii_chars;
use crate::text::is_ascii_bytes;
use crate::text::lossy_text;
use crate::text::text_of;

verus! {

/// The UTF-8 bytes of a string.
pub open spec fn bytes_of(s: String) -> Seq<u8> {
    encode_utf8(s@)
}

/// `name: value` CR LF for each value, in order.
pub open spec fn field_lines(name: Seq<u8>, values: Seq<String>) -> Seq<u8>
    decreases values.len(),
{
    if values.len() == 0 {
        seq![]
    } else {
        field_lines(name, values.drop_last()) + name + seq![58u8, 32] + bytes_of(values.last()) + seq![13u8, 10]
    }
}

/// The header lines of a header list, in order.
pub open spec fn header_lines(h: Seq<(String, Vec<String>)>) -> Seq<u8>
    decreases h.len(),
{
    if h.len() == 0 {
        seq![]
    } else {
        header_lines(h.drop_last()) + field_lines(bytes_of(h.last().0), h.last().1@)
    }
}

/// A message head: the start line, the header lines and a blank line.
pub open spec fn head_spec(start: Seq<u8>, h: Seq<(String, Vec<String>)>) -> Seq<u8> {
    start + seq![13u8, 10] + header_lines(h) + seq![13u8, 10]
}

/// Appends the bytes of a string.
fn push_str(out: &mut Vec<u8>, s: &String)
    ensures
        final(out)@ == old(out)@ + bytes_of(*s),
{
    let b = s.as_str().as_bytes();
    out.extend_from_slice(b);
    assert(final(out)@ =~= old(out)@ + bytes_of(*s)) by {
        assert(out@ =~= old(out)@ + b@);
    }
}

/// Appends a message head.
pub fn write_head(out: &mut Vec<u8>, start: &[u8], headers: &Vec<(String, Vec<String>)>)
    ensures
        final(out)@ == old(out)@ + head_spec(start@, headers@),
{
    let ghost base = out@;
    out.extend_from_slice(start);
    out.push(13);
    out.push(10);
    let ghost after_start = out@;
    assert(after_start =~= base + start@ + seq![13u8, 10]);
    let mut i: usize = 0;
    assert(headers@.subrange(0, 0) =~= Seq::<(String, Vec<String>)>::empty());
    while i < headers.len()
        invariant
            i <= headers@.len(),
            out@ == after_start + header_lines(headers@.subrange(0, i as int)),
        decreases headers@.len() - i,
    {
        let name = &headers[i].0;
        let values = &headers[i].1;
        let ghost before = out@;
        let mut j: usize = 0;
        assert(values@.subrange(0, 0) =~= Seq::<String>::empty());
        while j < values.len()
            invariant
                j <= values@.len(),
                out@ == before + field_lines(bytes_of(*name), values@.subrange(0, j as int)),
            decreases values@.len() - j,
        {
            let ghost b2 = out@;
            push_str(out, name);
            out.push(58);
            out.push(32);
            push_str(out, &values[j]);
            out.push(13);
            out.push(10);
            proof {
                let t = values@.subrange(0, j + 1);
                assert(t.drop_last() =~= values@.subrange(0, j as int));
                assert(out@ =~= before + field_lines(bytes_of(*name), t));
            }
            j += 1;
        }
        proof {
            assert(values@.subrange(0, values@.len() as int) =~= values@);
            let t = headers@.subrange(0, i + 1);
            assert(t.drop_last() =~= headers@.subrange(0, i as int));
            assert(out@ =~= after_start + header_lines(t));
        }
        i += 1;
    }
    out.push(13);
    out.push(10);
    proof {
        assert(headers@.subrange(0, headers@.len() as int) =~= headers@);
        assert(out@ =~= base + head_spec(start@, headers@));
    }
}

/// `headers` with `name` holding the single value `value`.
pub open spec fn header_set(old: Seq<(String, Vec<String>)>, new: Seq<(String, Vec<String>)>, name: Seq<char>, value: Seq<char>) -> bool {
    match header_index(old, name) {
        Some(i) => new.len() == old.len() && new[i].0@ == name && new[i].1@.len() == 1 && new[i].1@[0]@ == value
            && forall|k: int| 0 <= k < old.len() && k != i ==> #[trigger] new[k] == old[k],
        None => new.len() == old.len() + 1 && new.subrange(0, old.len() as int) == old && new.last().0@ == name
            && new.last().1@.len() == 1 && new.last().1@[0]@ == value,
    }
}

/// Sets `name` to the single value `value`, replacing what it held.
pub fn set_header_value(headers: &mut Vec<(String, Vec<String>)>, name: String, value: String)
    requires
        names_unique(old(headers)@),
    ensures
        names_unique(final(headers)@),
        header_set(old(headers)@, final(headers)@, name@, value@),
{
    let ghost before = headers@;
    let ghost nv = name@;
    let ghost vv = value@;
    match find_header(headers, &name) {
        Some(i) => {
            proof {
                lemma_header_index_unique(before, nv, i as int);
            }
            let v: Vec<String> = vec![value];
            headers.set(i, (name, v));
            proof {
                assert forall|a: int, b: int| 0 <= a < b < headers@.len() implies (#[trigger] headers@[a]).0@ != (#[trigger] headers@[b]).0@ by {
                    assert(before[a].0@ != before[b].0@);
                }
            }
        },
        None => {
            proof {
                assert(header_index(before, nv) is None);
            }
            let v: Vec<String> = vec![value];
            headers.push((name, v));
            proof {
                assert(headers@.subrange(0, before.len() as int) =~= before);
            }
        },
    }
}

/// Removes `name` and returns its values.
pub fn del_header_value(headers: &mut Vec<(String, Vec<String>)>, name: &String) -> (r: Option<Vec<String>>)
    requires
        names_unique(old(headers)@),
    ensures
        names_unique(final(headers)@),
        forall|k: int| 0 <= k < final(headers)@.len() ==> (#[trigger] final(headers)@[k]).0@ != name@,
        match header_index(old(headers)@, name@) {
            Some(i) => r matches Some(v) && v == old(headers)@[i].1 && final(headers)@ == old(headers)@.remove(i),
            None => r is None && final(headers)@ == old(headers)@,
        },
{
    let ghost before = headers@;
    match find_header(headers, name) {
        Some(i) => {
            proof {
                lemma_header_index_unique(before, name@, i as int);
            }
            let (_, v) = headers.remove(i);
            proof {
                assert forall|a: int, b: int| 0 <= a < b < headers@.len() implies (#[trigger] headers@[a]).0@ != (#[trigger] headers@[b]).0@ by {
                    let a2 = if a < i as int { a } else { a + 1 };
                    let b2 = if b < i as int { b } else { b + 1 };
                    assert(before[a2].0@ != before[b2].0@);
                }
                assert forall|k: int| 0 <= k < headers@.len() implies (#[trigger] headers@[k]).0@ != name@ by {
                    let k2 = if k < i as int { k } else { k + 1 };
                    if k2 < i as int {
                        assert(before[k2].0@ != before[i as int].0@);
                    } else {
                        assert(before[i as int].0@ != before[k2].0@);
                    }
                }
            }
            Some(v)
        },
        None => {
            proof {
                assert(header_index(before, name@) is None);
            }
            None
        },
    }
}

/// How a version is written in a start line: an unknown one as it was read.
pub open spec fn version_bytes(v: HttpVersion) -> Seq<u8> {
    match v {
        HttpVersion::Unknown(Some(s)) => bytes_of(s),
        _ => encode_utf8(version_text(v)),
    }
}

/// `version code status`, the start line of a response.
pub open spec fn status_line_bytes(v: HttpVersion, code: u16, status: String) -> Seq<u8> {
    version_bytes(v) + seq![32u8] + digits_of(code as nat, 10) + seq![32u8] + bytes_of(status)
}

/// The server's side of an HTTP/1 response: the head is sent once, then the body
/// with a length or in chunks.
pub struct ResponseWriter {
    pub sent_head: bool,
    pub closed: bool,
    pub code: u16,
    pub status: String,
    pub headers: Vec<(String, Vec<String>)>,
    /// The version of the request answered.
    pub version: HttpVersion,
}

/// `Transfer-Encoding` and `chunked`.
pub open spec fn te_name() -> Seq<char> {
    "Transfer-Encoding"@
}

pub open spec fn chunked_value() -> Seq<char> {
    "chunked"@
}

pub open spec fn cl_name() -> Seq<char> {
    "Content-Length"@
}

/// The text of a decimal number.
pub open spec fn decimal_chars(n: nat) -> Seq<char> {
    ascii_chars(digits_of(n, 10))
}

proof fn lemma_digits_ascii(n: nat)
    ensures
        is_ascii_bytes(digits_of(n, 10)),
    decreases n,
{
    if n >= 10 {
        lemma_digits_ascii(n / 10);
        let d = digits_of(n, 10);
        assert(d.drop_last() == digits_of(n / 10, 10));
        assert forall|i: int| 0 <= i < d.len() implies #[trigger] d[i] < 128 by {
            if i < d.len() - 1 {
                assert(d[i] == d.drop_last()[i]);
            }
        }
    }
}

/// The decimal text of `n`.
pub fn decimal_text(n: usize) -> (r: String)
    ensures
        r@ == decimal_chars(n as nat),
{
    let d = format_number(n, false);
    proof {
        lemma_digits_ascii(n as nat);
    }
    lossy_text(d.as_slice())
}

impl ResponseWriter {
    pub open spec fn wf(&self) -> bool {
        names_unique(self.headers@)
    }

    /// A writer for a response to a request of `version`: `200 OK`, no headers.
    pub fn new(version: HttpVersion) -> (r: Self)
        ensures
            r.wf(),
            !r.sent_head && !r.closed,
            r.code == 200,
            r.status@ == "OK"@,
            r.headers@.len() == 0,
            r.version == version,
    {
        ResponseWriter { sent_head: false, closed: false, code: 200, status: "OK".to_owned(), headers: Vec::new(), version }
    }

    pub fn set_status(&mut self, code: u16, message: String)
        ensures
            *final(self) == (ResponseWriter { code, status: message, ..*old(self) }),
    {
        self.code = code;
        self.status = message;
    }

    pub fn add_header(&mut self, header: &str, value: &str)
        requires
            old(self).wf(),
        ensures
            final(self).wf(),
            crate::http1::header_added(old(self).headers@, final(self).headers@, header@, value@),
            *final(self) == (ResponseWriter { headers: final(self).headers, ..*old(self) }),
    {
        crate::http1::add_header_value(&mut self.headers, header.to_owned(), value.to_owned());
    }

    pub fn set_header(&mut self, header: &str, value: &str)
        requires
            old(self).wf(),
        ensures
            final(self).wf(),
            header_set(old(self).headers@, final(self).headers@, header@, value@),
            *final(self) == (ResponseWriter { headers: final(self).headers, ..*old(self) }),
    {
        set_header_value(&mut self.headers, header.to_owned(), value.to_owned());
    }

    pub fn del_header(&mut self, header: &str) -> (r: Option<Vec<String>>)
        requires
            old(self).wf(),
        ensures
            final(self).wf(),
            forall|k: int| 0 <= k < final(self).headers@.len() ==> (#[trigger] final(self).headers@[k]).0@ != header@,
            *final(self) == (ResponseWriter { headers: final(self).headers, ..*old(self) }),
    {
        del_header_value(&mut self.headers, &header.to_owned())
    }

    /// The head as it goes on the wire; nothing for HTTP/0.9.
    pub open spec fn head_bytes(&self) -> Seq<u8> {
        if self.version == HttpVersion::Http09 {
            seq![]
        } else {
            head_spec(status_line_bytes(self.version, self.code, self.status), self.headers@)
        }
    }

    fn head(&self) -> (r: Vec<u8>)
        ensures
            r@ == self.head_bytes(),
    {
        let mut out: Vec<u8> = Vec::new();
        if let HttpVersion::Http09 = self.version {
            return out;
        }
        let mut start: Vec<u8> = Vec::new();
        let v = self.version.to_string_unknown();
        push_str(&mut start, &v);
        start.push(32);
        let code = format_number(self.code as usize, false);
        start.extend_from_slice(code.as_slice());
        start.push(32);
        push_str(&mut start, &self.status);
        proof {
            assert(start@ =~= status_line_bytes(self.version, self.code, self.status));
        }
        write_head(&mut out, start.as_slice(), &self.headers);
        assert(out@ =~= self.head_bytes());
        out
    }

    /// The bytes that `write(body)` puts on the wire: for HTTP/0.9 the body alone;
    /// else the head first, announcing chunked transfer, and the body as a chunk.
    pub fn write(&mut self, body: &[u8]) -> (r: Result<Vec<u8>, LibError>)
        requires
            old(self).wf(),
        ensures
            final(self).wf(),
            old(self).closed ==> (r matches Err(LibError::ConnectionClosed) && *final(self) == *old(self)),
            !old(self).closed && old(self).version == HttpVersion::Http09 ==> (r matches Ok(b) && b@ == body@
                && final(self).sent_head && !final(self).closed),
            !old(self).closed && old(self).version != HttpVersion::Http09 && old(self).sent_head ==> (r matches Ok(b)
                && b@ == chunk_spec(body@) && *final(self) == *old(self)),
            !old(self).closed && old(self).version != HttpVersion::Http09 && !old(self).sent_head ==> (r matches Ok(b)
                && header_set(old(self).headers@, final(self).headers@, te_name(), chunked_value())
                && b@ == final(self).head_bytes() + chunk_spec(body@) && final(self).sent_head && !final(self).closed),
    {
        if self.closed {
            return Err(LibError::ConnectionClosed);
        }
        if let HttpVersion::Http09 = self.version {
            self.sent_head = true;
            let mut out: Vec<u8> = Vec::new();
            out.extend_from_slice(body);
            assert(out@ =~= body@);
            return Ok(out);
        }
        let mut out: Vec<u8> = Vec::new();
        if !self.sent_head {
            set_header_value(&mut self.headers, "Transfer-Encoding".to_owned(), "chunked".to_owned());
            out = self.head();
            self.sent_head = true;
        }
        let c = get_chunk(body);
        out.extend_from_slice(c.as_slice());
        Ok(out)
    }

    /// The bytes that `close(body)` puts on the wire: with the head unsent, the head
    /// with a `Content-Length` and the body; for HTTP/0.9 the body; else the body as
    /// a chunk and the last chunk.
    pub fn close(&mut self, body: &[u8]) -> (r: Result<Vec<u8>, LibError>)
        requires
            old(self).wf(),
        ensures
            final(self).wf(),
            !old(self).sent_head ==> (r matches Ok(b) && final(self).sent_head && final(self).closed
                && header_set(old(self).headers@, final(self).headers@, cl_name(), decimal_chars(body@.len()))
                && b@ == final(self).head_bytes() + body@),
            old(self).sent_head && old(self).closed ==> (r matches Err(LibError::ConnectionClosed) && *final(self) == *old(self)),
            old(self).sent_head && !old(self).closed && old(self).version == HttpVersion::Http09 ==> (r matches Ok(b)
                && b@ == body@ && *final(self) == *old(self)),
            old(self).sent_head && !old(self).closed && old(self).version != HttpVersion::Http09 ==> (r matches Ok(b)
                && b@ == chunk_spec(body@) + last_chunk_spec() && final(self).closed && final(self).headers == old(self).headers),
    {
        let mut out: Vec<u8> = Vec::new();
        if !self.sent_head {
            let len = decimal_text(body.len());
            set_header_value(&mut self.headers, "Content-Length".to_owned(), len);
            out = self.head();
            out.extend_from_slice(body);
            self.sent_head = true;
            self.closed = true;
            return Ok(out);
        }
        if self.closed {
            return Err(LibError::ConnectionClosed);
        }
        if let HttpVersion::Http09 = self.version {
            out.extend_from_slice(body);
            assert(out@ =~= body@);
            return Ok(out);
        }
        let c = get_chunk(body);
        out.extend_from_slice(c.as_slice());
        let l = last_chunk();
        out.extend_from_slice(l.as_slice());
        self.closed = true;
        Ok(out)
    }
}

/// `method path version`, the start line of a request.
pub open spec fn request_line_bytes(m: HttpMethod, path: String, v: HttpVersion) -> Seq<u8> {
    method_bytes(m) + seq![32u8] + bytes_of(path) + seq![32u8] + version_bytes(v)
}

pub open spec fn method_bytes(m: HttpMethod) -> Seq<u8> {
    encode_utf8(crate::shared::method_text(m))
}

/// `h` holds `name` with the single value `value`.
pub open spec fn has_single(h: Seq<(String, Vec<String>)>, name: Seq<char>, value: Seq<char>) -> bool {
    exists|i: int| 0 <= i < h.len() && (#[trigger] h[i]).0@ == name && h[i].1@.len() == 1 && h[i].1@[0]@ == value
}

proof fn lemma_set_establishes(old: Seq<(String, Vec<String>)>, new: Seq<(String, Vec<String>)>, name: Seq<char>, value: Seq<char>)
    requires
        header_set(old, new, name, value),
    ensures
        has_single(new, name, value),
{
    match header_index(old, name) {
        Some(i) => {
            assert(new[i].0@ == name);
        },
        None => {
            let j = new.len() - 1;
            assert(new[j] == new.last());
        },
    }
}

proof fn lemma_set_keeps(old: Seq<(String, Vec<String>)>, new: Seq<(String, Vec<String>)>, name: Seq<char>, value: Seq<char>,
    n2: Seq<char>, v2: Seq<char>)
    requires
        has_single(old, name, value),
        header_set(old, new, n2, v2),
        n2 != name,
    ensures
        has_single(new, name, value),
{
    let i = choose|i: int| 0 <= i < old.len() && (#[trigger] old[i]).0@ == name && old[i].1@.len() == 1 && old[i].1@[0]@ == value;
    match header_index(old, n2) {
        Some(j) => {
            assert(i != j);
            assert(new[i] == old[i]);
        },
        None => {
            assert(new[i] == new.subrange(0, old.len() as int)[i]);
        },
    }
}

proof fn lemma_upgrade_names()
    ensures
        "Connection"@ != "Upgrade"@ && "Connection"@ != "Sec-WebSocket-Version"@ && "Connection"@ != "Sec-WebSocket-Key"@,
        "Upgrade"@ != "Sec-WebSocket-Version"@ && "Upgrade"@ != "Sec-WebSocket-Key"@,
        "Sec-WebSocket-Version"@ != "Sec-WebSocket-Key"@,
        cl_name() != "Connection"@ && cl_name() != "Upgrade"@ && cl_name() != "Sec-WebSocket-Version"@
            && cl_name() != "Sec-WebSocket-Key"@,
{
    reveal_strlit("Connection");
    reveal_strlit("Upgrade");
    reveal_strlit("Sec-WebSocket-Version");
    reveal_strlit("Sec-WebSocket-Key");
    reveal_strlit("Content-Length");
    assert("Connection"@[0] == 'C' && "Connection"@[3] == 'n');
    assert("Upgrade"@[0] == 'U');
    assert("Sec-WebSocket-Version"@[0] == 'S' && "Sec-WebSocket-Version"@[14] == 'V');
    assert("Sec-WebSocket-Key"@[0] == 'S' && "Sec-WebSocket-Key"@[14] == 'K');
    assert("Content-Length"@[0] == 'C' && "Content-Length"@[3] == 't');
}

/// The client's side of an HTTP/1 request.
pub struct RequestWriter {
    pub sent_head: bool,
    pub sent: bool,
    pub path: String,
    pub method: HttpMethod,
    pub version: HttpVersion,
    pub headers: Vec<(String, Vec<String>)>,
}

impl RequestWriter {
    pub open spec fn wf(&self) -> bool {
        names_unique(self.headers@)
    }

    /// A `GET /` request over HTTP/1.1 without headers.
    pub fn new() -> (r: Self)
        ensures
            r.wf(),
            !r.sent_head && !r.sent,
            r.path@ == "/"@,
            r.method == HttpMethod::Get,
            r.version == HttpVersion::Http11,
            r.headers@.len() == 0,
    {
        RequestWriter {
            sent_head: false,
            sent: false,
            path: "/".to_owned(),
            method: HttpMethod::Get,
            version: HttpVersion::Http11,
            headers: Vec::new(),
        }
    }

    pub fn add_header(&mut self, header: &str, value: &str)
        requires
            old(self).wf(),
        ensures
            final(self).wf(),
            crate::http1::header_added(old(self).headers@, final(self).headers@, header@, value@),
            *final(self) == (RequestWriter { headers: final(self).headers, ..*old(self) }),
    {
        crate::http1::add_header_value(&mut self.headers, header.to_owned(), value.to_owned());
    }

    pub fn set_header(&mut self, header: &str, value: &str)
        requires
            old(self).wf(),
        ensures
            final(self).wf(),
            header_set(old(self).headers@, final(self).headers@, header@, value@),
            *final(self) == (RequestWriter { headers: final(self).headers, ..*old(self) }),
    {
        set_header_value(&mut self.headers, header.to_owned(), value.to_owned());
    }

    pub fn del_header(&mut self, header: &str) -> (r: Option<Vec<String>>)
        requires
            old(self).wf(),
        ensures
            final(self).wf(),
            forall|k: int| 0 <= k < final(self).headers@.len() ==> (#[trigger] final(self).headers@[k]).0@ != header@,
            *final(self) == (RequestWriter { headers: final(self).headers, ..*old(self) }),
    {
        del_header_value(&mut self.headers, &header.to_owned())
    }

    /// The head: `GET path` CR LF for HTTP/0.9, else the request line and headers.
    pub open spec fn head_bytes(&self) -> Seq<u8> {
        if self.version == HttpVersion::Http09 {
            encode_utf8("GET "@) + bytes_of(self.path) + seq![13u8, 10]
        } else {
            head_spec(request_line_bytes(self.method, self.path, self.version), self.headers@)
        }
    }

    fn head(&self) -> (r: Vec<u8>)
        ensures
            r@ == self.head_bytes(),
    {
        let mut out: Vec<u8> = Vec::new();
        if let HttpVersion::Http09 = self.version {
            push_str(&mut out, &"GET ".to_owned());
            push_str(&mut out, &self.path);
            out.push(13);
            out.push(10);
            assert(out@ =~= self.head_bytes());
            return out;
        }
        let mut start: Vec<u8> = Vec::new();
        let m = self.method.name();
        push_str(&mut start, &m);
        start.push(32);
        push_str(&mut start, &self.path);
        start.push(32);
        let v = self.version.to_string_unknown();
        push_str(&mut start, &v);
        proof {
            assert(start@ =~= request_line_bytes(self.method, self.path, self.version));
        }
        write_head(&mut out, start.as_slice(), &self.headers);
        assert(out@ =~= self.head_bytes());
        out
    }

    /// The bytes that `write(body)` puts on the wire: the head first when unsent
    /// (announcing chunked transfer unless HTTP/0.9), then the body as a chunk; an
    /// HTTP/0.9 request carries no body.
    pub fn write(&mut self, body: &[u8]) -> (r: Result<Vec<u8>, LibError>)
        requires
            old(self).wf(),
        ensures
            final(self).wf(),
            old(self).sent ==> (r matches Err(LibError::ConnectionClosed) && *final(self) == *old(self)),
            !old(self).sent && old(self).version == HttpVersion::Http09 ==> (r matches Ok(b)
                && b@ == (if old(self).sent_head { seq![] } else { old(self).head_bytes() }) && final(self).sent_head
                && final(self).headers == old(self).headers),
            !old(self).sent && old(self).version != HttpVersion::Http09 && old(self).sent_head ==> (r matches Ok(b)
                && b@ == chunk_spec(body@) && *final(self) == *old(self)),
            !old(self).sent && old(self).version != HttpVersion::Http09 && !old(self).sent_head ==> (r matches Ok(b)
                && header_set(old(self).headers@, final(self).headers@, te_name(), chunked_value())
                && b@ == final(self).head_bytes() + chunk_spec(body@) && final(self).sent_head && !final(self).sent),
    {
        if self.sent {
            return Err(LibError::ConnectionClosed);
        }
        if let HttpVersion::Http09 = self.version {
            let mut out: Vec<u8> = Vec::new();
            if !self.sent_head {
                out = self.head();
                self.sent_head = true;
            }
            assert(out@ =~= (if old(self).sent_head { seq![] } else { old(self).head_bytes() }));
            return Ok(out);
        }
        let mut out: Vec<u8> = Vec::new();
        if !self.sent_head {
            set_header_value(&mut self.headers, "Transfer-Encoding".to_owned(), "chunked".to_owned());
            out = self.head();
            self.sent_head = true;
        }
        let c = get_chunk(body);
        out.extend_from_slice(c.as_slice());
        Ok(out)
    }

    /// The bytes that `send(body)` puts on the wire: with the head unsent, the head
    /// with a `Content-Length` and the body; else the body as a chunk and the last
    /// chunk.
    pub fn send(&mut self, body: &[u8]) -> (r: Result<Vec<u8>, LibError>)
        requires
            old(self).wf(),
        ensures
            final(self).wf(),
            !old(self).sent && old(self).version == HttpVersion::Http09 ==> (r matches Ok(b)
                && b@ == (if old(self).sent_head { seq![] } else { old(self).head_bytes() }) && final(self).sent),
            !(!old(self).sent && old(self).version == HttpVersion::Http09) && !old(self).sent_head ==> (r matches Ok(b)
                && final(self).sent_head && final(self).sent
                && header_set(old(self).headers@, final(self).headers@, cl_name(), decimal_chars(body@.len()))
                && b@ == final(self).head_bytes() + body@),
            old(self).sent_head && old(self).sent ==> (r matches Err(LibError::ConnectionClosed) && *final(self) == *old(self)),
            old(self).sent_head && !old(self).sent && old(self).version != HttpVersion::Http09 ==> (r matches Ok(b)
                && b@ == chunk_spec(body@) + last_chunk_spec() && final(self).sent && final(self).headers == old(self).headers),
    {
        if !self.sent {
            if let HttpVersion::Http09 = self.version {
                let mut out: Vec<u8> = Vec::new();
                if !self.sent_head {
                    out = self.head();
                    self.sent_head = true;
                }
                self.sent = true;
                assert(out@ =~= (if old(self).sent_head { seq![] } else { old(self).head_bytes() }));
                return Ok(out);
            }
        }
        if !self.sent_head {
            let len = decimal_text(body.len());
            set_header_value(&mut self.headers, "Content-Length".to_owned(), len);
            let mut out = self.head();
            out.extend_from_slice(body);
            self.sent_head = true;
            self.sent = true;
            return Ok(out);
        }
        if self.sent {
            return Err(LibError::ConnectionClosed);
        }
        let mut out: Vec<u8> = Vec::new();
        let c = get_chunk(body);
        out.extend_from_slice(c.as_slice());
        let l = last_chunk();
        out.extend_from_slice(l.as_slice());
        self.sent = true;
        Ok(out)
    }
}


impl RequestWriter {
    /// Asks for a WebSocket upgrade with the 16 key bytes `key`: sets `Connection`,
    /// `Upgrade`, `Sec-WebSocket-Version` and `Sec-WebSocket-Key` (the key in
    /// base64) and sends the head without a body. Returns the base64 key and the
    /// bytes to send; `Invalid` when the key is not 16 bytes.
    pub fn websocket_upgrade(&mut self, key: &[u8]) -> (r: Result<(Vec<u8>, Vec<u8>), LibError>)
        requires
            old(self).wf(),
        ensures
            final(self).wf(),
            key@.len() != 16 ==> (r matches Err(LibError::Invalid)) && *final(self) == *old(self),
            key@.len() == 16 && !old(self).sent && old(self).version != HttpVersion::Http09 ==> (r matches Ok((k, b))
                && k@ == crate::upgrade::base64_of(key@)
                && final(self).sent
                && has_single(final(self).headers@, "Connection"@, "upgrade"@)
                && has_single(final(self).headers@, "Upgrade"@, "websocket"@)
                && has_single(final(self).headers@, "Sec-WebSocket-Version"@, "13"@)
                && has_single(final(self).headers@, "Sec-WebSocket-Key"@, crate::text::text_of(k@))
                && (!old(self).sent_head ==> b@ == final(self).head_bytes())
                && (old(self).sent_head ==> b@ == chunk_spec(seq![]) + last_chunk_spec())),
            key@.len() == 16 && old(self).sent && old(self).sent_head ==> (r matches Err(LibError::ConnectionClosed)),
    {
        let k = match crate::upgrade::encode_key(key) {
            Ok(k) => k,
            Err(e) => {
                return Err(e);
            },
        };
        proof {
            lemma_upgrade_names();
        }
        let text = lossy_text(k.as_slice());
        self.set_header("Connection", "upgrade");
        let ghost h1 = self.headers@;
        self.set_header("Upgrade", "websocket");
        let ghost h2 = self.headers@;
        self.set_header("Sec-WebSocket-Version", "13");
        let ghost h3 = self.headers@;
        let ghost tv = text@;
        set_header_value(&mut self.headers, "Sec-WebSocket-Key".to_owned(), text);
        let ghost h4 = self.headers@;
        proof {
            lemma_set_establishes(h3, h4, "Sec-WebSocket-Key"@, tv);
            lemma_set_establishes(old(self).headers@, h1, "Connection"@, "upgrade"@);
            lemma_set_keeps(h1, h2, "Connection"@, "upgrade"@, "Upgrade"@, "websocket"@);
            lemma_set_keeps(h2, h3, "Connection"@, "upgrade"@, "Sec-WebSocket-Version"@, "13"@);
            lemma_set_keeps(h3, h4, "Connection"@, "upgrade"@, "Sec-WebSocket-Key"@, tv);
            lemma_set_establishes(h1, h2, "Upgrade"@, "websocket"@);
            lemma_set_keeps(h2, h3, "Upgrade"@, "websocket"@, "Sec-WebSocket-Version"@, "13"@);
            lemma_set_keeps(h3, h4, "Upgrade"@, "websocket"@, "Sec-WebSocket-Key"@, tv);
            lemma_set_establishes(h2, h3, "Sec-WebSocket-Version"@, "13"@);
            lemma_set_keeps(h3, h4, "Sec-WebSocket-Version"@, "13"@, "Sec-WebSocket-Key"@, tv);
        }
        let empty: Vec<u8> = Vec::new();
        let bytes = match self.send(empty.as_slice()) {
            Ok(b) => b,
            Err(e) => {
                return Err(e);
            },
        };
        proof {
            if !old(self).sent_head && !old(self).sent && old(self).version != HttpVersion::Http09 {
                let h5 = self.headers@;
                let cl = decimal_chars(empty@.len());
                lemma_set_keeps(h4, h5, "Connection"@, "upgrade"@, cl_name(), cl);
                lemma_set_keeps(h4, h5, "Upgrade"@, "websocket"@, cl_name(), cl);
                lemma_set_keeps(h4, h5, "Sec-WebSocket-Version"@, "13"@, cl_name(), cl);
                lemma_set_keeps(h4, h5, "Sec-WebSocket-Key"@, tv, cl_name(), cl);
                assert(bytes@ =~= self.head_bytes());
            } else {
                assert(empty@ =~= Seq::<u8>::empty());
            }
        }
        Ok((k, bytes))
    }
}
} // verus!
