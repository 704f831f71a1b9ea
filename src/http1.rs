use vstd::prelude::*;
use vstd::utf8::encode_utf8;
use crate::shared::lower_bytes;
use crate::shared::known_method;
use crate::shared::to_lower_byte;
use crate::shared::eq_lower;
use crate::shared::HttpMethod;
use crate::shared::HttpVersion;
use crate::shared::HttpClient;
use crate::shared::HttpResponse;
use crate::text::digits_of;
use crate::text::find;
use crate::text::find_byte;
use crate::text::format_number;
use crate::text::lossy_text;
use crate::text::text_of;
use crate::text::number_spec;
use crate::text::parse_number;
use crate::text::slice_to_vec;
use crate::text::strip_eol;
use crate::text::eol_bound;
use crate::text::trim;
use crate::text::trim_bounds;
use crate::text::trim_vec;

verus! {

/// A chunk of a chunked body: its length in upper-case hexadecimal, CR LF, the
/// bytes, CR LF.
pub open spec fn chunk_spec(buf: Seq<u8>) -> Seq<u8> {
    digits_of(buf.len(), 16) + seq![13u8, 10] + buf + seq![13u8, 10]
}

/// Frames `buf` as one chunk of a chunked body.
pub fn get_chunk(buf: &[u8]) -> (r: Vec<u8>)
    ensures
        r@ == chunk_spec(buf@),
{
    let mut v = format_number(buf.len(), true);
    v.push(13);
    v.push(10);
    v.extend_from_slice(buf);
    v.push(13);
    v.push(10);
    assert(v@ =~= chunk_spec(buf@));
    v
}

/// The last chunk, which ends a chunked body.
pub open spec fn last_chunk_spec() -> Seq<u8> {
    seq![48u8, 13, 10, 13, 10]
}

pub fn last_chunk() -> (r: Vec<u8>)
    ensures
        r@ == last_chunk_spec(),
{
    let r: Vec<u8> = vec![48u8, 13, 10, 13, 10];
    assert(r@ =~= last_chunk_spec());
    r
}

/// The size announced by a chunk-size line: the trimmed line read as hexadecimal,
/// zero (the end of the body) when it is not a number.
pub open spec fn chunk_size_spec(line: Seq<u8>) -> nat {
    match number_spec(trim(line), 16) {
        Some(n) => n,
        None => 0,
    }
}

pub fn chunk_size(line: &[u8]) -> (r: usize)
    ensures
        r as nat == chunk_size_spec(line@),
{
    let t = trim_vec(line);
    match parse_number(t.as_slice(), true) {
        Some(n) => n,
        None => 0,
    }
}

/// A request line split at its first two spaces.
#[derive(Debug, Clone, PartialEq, Eq)]
pub enum RequestLine {
    /// No space.
    Invalid,
    /// One space: `GET path` of HTTP/0.9.
    Simple(Vec<u8>),
    /// Method, path and version (which may hold more spaces).
    Full(Vec<u8>, Vec<u8>, Vec<u8>),
}

/// The three parts of `s` cut at its first two spaces, when there are two.
pub open spec fn split3(s: Seq<u8>) -> Option<(Seq<u8>, Seq<u8>, Seq<u8>)> {
    match find_byte(s, 32, 0) {
        None => None,
        Some(i) => match find_byte(s, 32, i + 1) {
            None => None,
            Some(j) => Some((s.subrange(0, i as int), s.subrange(i as int + 1, j as int), s.subrange(j as int + 1, s.len() as int))),
        },
    }
}

/// Splits `s` at its first two spaces.
fn split_line(s: &[u8]) -> (r: (Option<usize>, Option<usize>))
    ensures
        r.0 matches Some(i) ==> find_byte(s@, 32, 0) == Some(i as nat) && i < s@.len(),
        r.0 is None ==> find_byte(s@, 32, 0) is None && r.1 is None,
        r.0 matches Some(i) ==> (r.1 matches Some(j) ==> find_byte(s@, 32, (i + 1) as nat) == Some(j as nat) && i < j < s@.len()),
        r.0 matches Some(i) ==> (r.1 is None ==> find_byte(s@, 32, (i + 1) as nat) is None),
{
    let len = s.len();
    match find(s, 32, 0) {
        None => (None, None),
        Some(i) => {
            proof {
                lemma_find_byte_bounds(s@, 32, 0);
            }
            match find(s, 32, i + 1) {
                None => (Some(i), None),
                Some(j) => {
                    proof {
                        lemma_find_byte_bounds(s@, 32, (i + 1) as nat);
                    }
                    (Some(i), Some(j))
                },
            }
        },
    }
}

pub proof fn lemma_find_byte_bounds(s: Seq<u8>, b: u8, i: nat)
    ensures
        find_byte(s, b, i) matches Some(k) ==> i <= k < s.len() && s[k as int] == b,
        find_byte(s, b, i) matches Some(k) ==> forall|m: int| i <= m < k ==> s[m] != b,
        find_byte(s, b, i) is None ==> forall|m: int| i <= m < s.len() ==> s[m] != b,
    decreases s.len() - i,
{
    if i < s.len() {
        lemma_find_byte_bounds(s, b, i + 1);
    }
}

/// How a request line (line ending included) splits.
pub open spec fn request_line_spec(line: Seq<u8>) -> RequestLineView {
    let s = strip_eol(line);
    match find_byte(s, 32, 0) {
        None => RequestLineView::Invalid,
        Some(i) => match split3(s) {
            None => RequestLineView::Simple(s.subrange(i as int + 1, s.len() as int)),
            Some((a, b, c)) => RequestLineView::Full(a, b, c),
        },
    }
}

/// The parts of a request line as byte strings.
pub enum RequestLineView {
    Invalid,
    Simple(Seq<u8>),
    Full(Seq<u8>, Seq<u8>, Seq<u8>),
}

impl RequestLine {
    pub open spec fn view(&self) -> RequestLineView {
        match self {
            RequestLine::Invalid => RequestLineView::Invalid,
            RequestLine::Simple(p) => RequestLineView::Simple(p@),
            RequestLine::Full(a, b, c) => RequestLineView::Full(a@, b@, c@),
        }
    }
}

/// Splits a request line at its first two spaces, once its line ending is removed.
pub fn parse_request_line(line: &[u8]) -> (r: RequestLine)
    ensures
        r.view() == request_line_spec(line@),
{
    let n = eol_bound(line);
    let s = &line[0..n];
    assert(s@ == strip_eol(line@));
    match split_line(s) {
        (None, _) => RequestLine::Invalid,
        (Some(i), None) => RequestLine::Simple(slice_to_vec(s, i + 1, n)),
        (Some(i), Some(j)) => RequestLine::Full(slice_to_vec(s, 0, i), slice_to_vec(s, i + 1, j), slice_to_vec(s, j + 1, n)),
    }
}

/// A header line.
#[derive(Debug, Clone, PartialEq, Eq)]
pub enum HeaderLine {
    /// A blank line, the end of the head.
    End,
    /// A line without a colon.
    Invalid,
    /// The lower-cased, trimmed name and the trimmed value.
    Field(Vec<u8>, Vec<u8>),
}

pub enum HeaderLineView {
    End,
    Invalid,
    Field(Seq<u8>, Seq<u8>),
}

impl HeaderLine {
    pub open spec fn view(&self) -> HeaderLineView {
        match self {
            HeaderLine::End => HeaderLineView::End,
            HeaderLine::Invalid => HeaderLineView::Invalid,
            HeaderLine::Field(n, v) => HeaderLineView::Field(n@, v@),
        }
    }
}

/// How a header line (line ending included) reads: blank, without a colon, or a
/// name and a value split at the first colon.
pub open spec fn header_line_spec(line: Seq<u8>) -> HeaderLineView {
    if trim(line).len() == 0 {
        HeaderLineView::End
    } else {
        match find_byte(line, 58, 0) {
            None => HeaderLineView::Invalid,
            Some(i) => HeaderLineView::Field(
                lower_bytes(trim(line.subrange(0, i as int))),
                trim(line.subrange(i as int + 1, line.len() as int)),
            ),
        }
    }
}

/// ASCII lower case of `s`.
pub fn lower_vec(s: &[u8]) -> (r: Vec<u8>)
    ensures
        r@ == lower_bytes(s@),
{
    let mut r: Vec<u8> = Vec::new();
    let mut i: usize = 0;
    while i < s.len()
        invariant
            i <= s@.len(),
            r@.len() == i,
            forall|k: int| 0 <= k < i ==> #[trigger] r@[k] == lower_bytes(s@)[k],
        decreases s@.len() - i,
    {
        r.push(to_lower_byte(s[i]));
        i += 1;
    }
    assert(r@ =~= lower_bytes(s@));
    r
}

pub fn parse_header_line(line: &[u8]) -> (r: HeaderLine)
    ensures
        r.view() == header_line_spec(line@),
{
    let (a, b) = trim_bounds(line);
    if a == b {
        return HeaderLine::End;
    }
    let len = line.len();
    match find(line, 58, 0) {
        None => HeaderLine::Invalid,
        Some(i) => {
            proof {
                lemma_find_byte_bounds(line@, 58, 0);
            }
            let name_part = &line[0..i];
            let value_part = &line[i + 1..len];
            let name = lower_vec(trim_vec(name_part).as_slice());
            let value = trim_vec(value_part);
            HeaderLine::Field(name, value)
        },
    }
}

/// A status line split at its first two spaces.
#[derive(Debug, Clone, PartialEq, Eq)]
pub enum StatusLine {
    Invalid,
    Status(Vec<u8>, Vec<u8>, Vec<u8>),
}

pub open spec fn status_line_spec(line: Seq<u8>) -> Option<(Seq<u8>, Seq<u8>, Seq<u8>)> {
    split3(strip_eol(line))
}

/// Splits a status line, once its line ending is removed, into version, code and
/// reason.
pub fn parse_status_line(line: &[u8]) -> (r: StatusLine)
    ensures
        status_line_spec(line@) is None ==> r == StatusLine::Invalid,
        status_line_spec(line@) matches Some((a, b, c)) ==> (r matches StatusLine::Status(x, y, z) && x@ == a && y@ == b
            && z@ == c),
{
    let n = eol_bound(line);
    let s = &line[0..n];
    assert(s@ == strip_eol(line@));
    match split_line(s) {
        (Some(i), Some(j)) => StatusLine::Status(slice_to_vec(s, 0, i), slice_to_vec(s, i + 1, j), slice_to_vec(s, j + 1, n)),
        _ => StatusLine::Invalid,
    }
}

/// `http/1.0` and `http/1.1` in lower case.
pub open spec fn http10_bytes() -> Seq<u8> {
    seq![104u8, 116, 116, 112, 47, 49, 46, 48]
}

pub open spec fn http11_bytes() -> Seq<u8> {
    seq![104u8, 116, 116, 112, 47, 49, 46, 49]
}

/// The version a token names, ignoring case and surrounding white space; any other
/// token is kept, as text, as `Unknown`.
pub open spec fn version_matches(tok: Seq<u8>, v: HttpVersion) -> bool {
    let t = lower_bytes(trim(tok));
    if t == http10_bytes() {
        v == HttpVersion::Http10
    } else if t == http11_bytes() {
        v == HttpVersion::Http11
    } else {
        v matches HttpVersion::Unknown(Some(s)) && s@ == text_of(trim(tok))
    }
}

pub fn parse_version(tok: &[u8]) -> (r: HttpVersion)
    ensures
        version_matches(tok@, r),
{
    let t = trim_vec(tok);
    if eq_lower(t.as_slice(), &[104u8, 116, 116, 112, 47, 49, 46, 48]) {
        HttpVersion::Http10
    } else if eq_lower(t.as_slice(), &[104u8, 116, 116, 112, 47, 49, 46, 49]) {
        HttpVersion::Http11
    } else {
        HttpVersion::Unknown(Some(lossy_text(t.as_slice())))
    }
}

/// The method a token names, ignoring case; any other is kept, as text, as
/// `Unknown`.
pub open spec fn method_matches(tok: Seq<u8>, m: HttpMethod) -> bool {
    match known_method(tok) {
        Some(k) => m == k,
        None => m matches HttpMethod::Unknown(Some(s)) && s@ == text_of(tok),
    }
}

pub fn parse_method(tok: &[u8]) -> (r: HttpMethod)
    ensures
        method_matches(tok@, r),
{
    if eq_lower(tok, &[103u8, 101, 116]) {
        HttpMethod::Get
    } else if eq_lower(tok, &[104u8, 101, 97, 100]) {
        HttpMethod::Head
    } else if eq_lower(tok, &[112u8, 111, 115, 116]) {
        HttpMethod::Post
    } else if eq_lower(tok, &[112u8, 117, 116]) {
        HttpMethod::Put
    } else if eq_lower(tok, &[100u8, 101, 108, 101, 116, 101]) {
        HttpMethod::Delete
    } else if eq_lower(tok, &[99u8, 111, 110, 110, 101, 99, 116]) {
        HttpMethod::Connect
    } else if eq_lower(tok, &[111u8, 112, 116, 105, 111, 110, 115]) {
        HttpMethod::Options
    } else if eq_lower(tok, &[116u8, 114, 97, 99, 101]) {
        HttpMethod::Trace
    } else {
        HttpMethod::Unknown(Some(lossy_text(tok)))
    }
}

/// A status code token: its decimal value when it is one below 65536, else zero.
pub open spec fn code_spec(tok: Seq<u8>) -> u16 {
    match number_spec(tok, 10) {
        Some(n) => if n <= 65535 { n as u16 } else { 0 },
        None => 0,
    }
}

pub fn parse_code(tok: &[u8]) -> (r: u16)
    ensures
        r == code_spec(tok@),
{
    match parse_number(tok, false) {
        Some(n) => if n <= 65535 {
            n as u16
        } else {
            0
        },
        None => 0,
    }
}

/// Header lists as names with their values, as text.
pub open spec fn headers_view(h: Seq<(String, Vec<String>)>) -> Seq<(Seq<char>, Seq<Seq<char>>)> {
    h.map_values(|e: (String, Vec<String>)| (e.0@, e.1@.map_values(|s: String| s@)))
}

/// Each name appears once.
pub open spec fn names_unique(h: Seq<(String, Vec<String>)>) -> bool {
    forall|i: int, j: int| 0 <= i < j < h.len() ==> (#[trigger] h[i]).0@ != (#[trigger] h[j]).0@
}

/// Index of the entry named `name`.
pub open spec fn header_index(h: Seq<(String, Vec<String>)>, name: Seq<char>) -> Option<int> {
    if exists|i: int| 0 <= i < h.len() && (#[trigger] h[i]).0@ == name {
        Some(choose|i: int| 0 <= i < h.len() && (#[trigger] h[i]).0@ == name)
    } else {
        None
    }
}

/// Index of the entry named `name`.
pub fn find_header(headers: &Vec<(String, Vec<String>)>, name: &String) -> (r: Option<usize>)
    requires
        names_unique(headers@),
    ensures
        r matches Some(i) ==> i < headers@.len() && headers@[i as int].0@ == name@,
        r is None ==> forall|i: int| 0 <= i < headers@.len() ==> (#[trigger] headers@[i]).0@ != name@,
{
    let mut i: usize = 0;
    while i < headers.len()
        invariant
            i <= headers@.len(),
            forall|k: int| 0 <= k < i ==> (#[trigger] headers@[k]).0@ != name@,
        decreases headers@.len() - i,
    {
        if headers[i].0 == *name {
            return Some(i);
        }
        i += 1;
    }
    None
}

/// Adds a value under `name`, after those already there.
pub fn add_header_value(headers: &mut Vec<(String, Vec<String>)>, name: String, value: String)
    requires
        names_unique(old(headers)@),
    ensures
        names_unique(final(headers)@),
        match header_index(old(headers)@, name@) {
            Some(i) => final(headers)@.len() == old(headers)@.len()
                && final(headers)@[i].0@ == name@
                && final(headers)@[i].1@.map_values(|s: String| s@) == old(headers)@[i].1@.map_values(|s: String| s@).push(value@)
                && forall|k: int| 0 <= k < old(headers)@.len() && k != i ==> #[trigger] final(headers)@[k] == old(headers)@[k],
            None => final(headers)@.len() == old(headers)@.len() + 1
                && final(headers)@.subrange(0, old(headers)@.len() as int) == old(headers)@
                && final(headers)@.last().0@ == name@
                && final(headers)@.last().1@.map_values(|s: String| s@) == seq![value@],
        },
{
    match find_header(headers, &name) {
        Some(i) => {
            let ghost before = headers@;
            proof {
                let j = choose|j: int| 0 <= j < before.len() && (#[trigger] before[j]).0@ == name@;
                if j != i as int {
                    if j < i as int {
                        assert(before[j].0@ != before[i as int].0@);
                    } else {
                        assert(before[i as int].0@ != before[j].0@);
                    }
                }
                assert(header_index(before, name@) == Some(i as int));
            }
            let mut entry = headers.remove(i);
            entry.1.push(value);
            headers.insert(i, entry);
            proof {
                assert forall|a: int, b: int| 0 <= a < b < headers@.len() implies (#[trigger] headers@[a]).0@ != (#[trigger] headers@[b]).0@ by {
                    if a == i as int {
                        assert(before[b].0@ != before[a].0@);
                    } else if b == i as int {
                        assert(before[a].0@ != before[b].0@);
                    } else {
                        assert(before[a].0@ != before[b].0@);
                    }
                }
                assert(headers@[i as int].1@.map_values(|s: String| s@) =~= before[i as int].1@.map_values(|s: String| s@).push(value@));
            }
        },
        None => {
            let ghost before = headers@;
            proof {
                assert(header_index(before, name@) is None);
            }
            let v: Vec<String> = vec![value];
            headers.push((name, v));
            proof {
                assert(headers@.subrange(0, before.len() as int) =~= before);
                assert(headers@.last().1@.map_values(|s: String| s@) =~= seq![value@]);
            }
        },
    }
}


/// `chunked` as bytes.
pub open spec fn chunked_bytes() -> Seq<u8> {
    seq![99u8, 104, 117, 110, 107, 101, 100]
}

/// Whether `b` holds `chunked`.
pub open spec fn has_chunked(b: Seq<u8>) -> bool {
    exists|i: int| 0 <= i && i + 7 <= b.len() && #[trigger] b.subrange(i, i + 7) == chunked_bytes()
}

pub fn contains_chunked(b: &[u8]) -> (r: bool)
    ensures
        r == has_chunked(b@),
{
    let pat: [u8; 7] = [99u8, 104, 117, 110, 107, 101, 100];
    if b.len() < 7 {
        return false;
    }
    let mut i: usize = 0;
    let n = b.len();
    let last = n - 7;
    while i <= last
        invariant
            n == b@.len(),
            b@.len() >= 7,
            last == b@.len() - 7,
            pat@ == chunked_bytes(),
            i <= b@.len() - 6,
            forall|k: int| 0 <= k < i ==> #[trigger] b@.subrange(k, k + 7) != chunked_bytes(),
        decreases b@.len() - i,
    {
        let mut j: usize = 0;
        let mut same = true;
        while j < 7
            invariant
                i <= last,
                n == b@.len(),
                last == b@.len() - 7,
                j <= 7,
                pat@ == chunked_bytes(),
                same == forall|m: int| 0 <= m < j ==> b@[i + m] == pat@[m],
            decreases 7 - j,
        {
            if b[i + j] != pat[j] {
                same = false;
            }
            j += 1;
        }
        if same {
            assert(b@.subrange(i as int, i + 7) =~= chunked_bytes());
            return true;
        }
        assert(b@.subrange(i as int, i + 7) != chunked_bytes()) by {
            let m = choose|m: int| 0 <= m < 7 && b@[i + m] != pat@[m];
            assert(b@.subrange(i as int, i + 7)[m] != chunked_bytes()[m]);
        }
        i += 1;
    }
    assert forall|k: int| 0 <= k && k + 7 <= b@.len() implies #[trigger] b@.subrange(k, k + 7) != chunked_bytes() by {
        assert(k < i);
    }
    false
}

/// How a message body is delimited.
#[derive(Debug, Clone, Copy, PartialEq, Eq, Structural)]
pub enum Framing {
    Chunked,
    Length(usize),
    ToEof,
    Empty,
}

/// The bytes of the first value of the header named `name`.
pub open spec fn first_value(h: Seq<(String, Vec<String>)>, name: Seq<char>) -> Option<Seq<u8>> {
    match header_index(h, name) {
        Some(i) => if h[i].1@.len() > 0 { Some(encode_utf8(h[i].1@[0]@)) } else { None },
        None => None,
    }
}

/// The framing of a body (RFC 7230 section 3.3.3, as far as this library goes):
/// chunked when `transfer-encoding` holds `chunked`, else the `content-length`
/// when it is a number, else up to the end of the stream when `to_eof`, else empty.
pub open spec fn framing_spec(h: Seq<(String, Vec<String>)>, to_eof: bool) -> Framing {
    if first_value(h, "transfer-encoding"@) matches Some(te) && has_chunked(te) {
        Framing::Chunked
    } else if first_value(h, "content-length"@) matches Some(cl) && number_spec(cl, 10) is Some {
        Framing::Length(number_spec(first_value(h, "content-length"@).unwrap(), 10).unwrap() as usize)
    } else if to_eof {
        Framing::ToEof
    } else {
        Framing::Empty
    }
}

/// The bytes of the first value of the header named `name`.
fn first_value_bytes(headers: &Vec<(String, Vec<String>)>, name: &String) -> (r: Option<Vec<u8>>)
    requires
        names_unique(headers@),
    ensures
        r matches Some(b) ==> first_value(headers@, name@) == Some(b@),
        r is None ==> first_value(headers@, name@) is None,
{
    match find_header(headers, name) {
        Some(i) => {
            proof {
                lemma_header_index_unique(headers@, name@, i as int);
            }
            if headers[i].1.len() > 0 {
                let v = headers[i].1[0].as_str();
                let b = v.as_bytes();
                Some(slice_to_vec(b, 0, b.len()))
            } else {
                None
            }
        },
        None => None,
    }
}

pub proof fn lemma_header_index_unique(h: Seq<(String, Vec<String>)>, name: Seq<char>, i: int)
    requires
        names_unique(h),
        0 <= i < h.len(),
        h[i].0@ == name,
    ensures
        header_index(h, name) == Some(i),
{
    let j = choose|j: int| 0 <= j < h.len() && (#[trigger] h[j]).0@ == name;
    if j != i {
        if j < i {
            assert(h[j].0@ != h[i].0@);
        } else {
            assert(h[i].0@ != h[j].0@);
        }
    }
}

pub fn framing(headers: &Vec<(String, Vec<String>)>, to_eof: bool) -> (r: Framing)
    requires
        names_unique(headers@),
    ensures
        r == framing_spec(headers@, to_eof),
{
    let te_name = "transfer-encoding".to_owned();
    let cl_name = "content-length".to_owned();
    if let Some(te) = first_value_bytes(headers, &te_name) {
        if contains_chunked(te.as_slice()) {
            return Framing::Chunked;
        }
    }
    if let Some(cl) = first_value_bytes(headers, &cl_name) {
        if let Some(n) = parse_number(cl.as_slice(), false) {
            return Framing::Length(n);
        }
    }
    if to_eof {
        Framing::ToEof
    } else {
        Framing::Empty
    }
}

/// What the reader of a message must read next.
#[derive(Debug, Clone, Copy, PartialEq, Eq, Structural)]
pub enum Need {
    /// Nothing: the message is complete or invalid.
    Done,
    /// A line, up to and with its LF.
    Line,
    /// A chunk-size line; then, unless the size is zero, that many bytes and a line.
    ChunkSize,
    /// Exactly this many bytes.
    Exact(usize),
    /// Everything up to the end of the stream.
    ToEof,
}

pub open spec fn body_need(f: Framing) -> Need {
    match f {
        Framing::Chunked => Need::ChunkSize,
        Framing::Length(n) => Need::Exact(n),
        Framing::ToEof => Need::ToEof,
        Framing::Empty => Need::Done,
    }
}

/// The progress flags of a request never go back, and nothing changes once the
/// request is complete or invalid.
pub open spec fn client_progress(a: HttpClient, b: HttpClient) -> bool {
    &&& (a.mpv_complete ==> b.mpv_complete)
    &&& (a.head_complete ==> b.head_complete)
    &&& (a.body_complete ==> b.body_complete)
    &&& (!a.valid ==> !b.valid)
    &&& ((a.body_complete || !a.valid) ==> b == a)
}

impl HttpClient {
    pub open spec fn wf(&self) -> bool {
        &&& names_unique(self.headers@)
        &&& (self.head_complete ==> self.mpv_complete)
        &&& (self.body_complete ==> self.head_complete)
    }

    /// Whether a request of this version without a length runs to the end of the
    /// stream.
    pub open spec fn reads_to_eof(&self) -> bool {
        self.version == HttpVersion::Http10
    }

    pub open spec fn need_spec(&self) -> Need {
        if !self.valid || self.body_complete {
            Need::Done
        } else if !self.mpv_complete || !self.head_complete {
            Need::Line
        } else {
            body_need(framing_spec(self.headers@, self.reads_to_eof()))
        }
    }

    /// What the server must read next for this request.
    pub fn need(&self) -> (r: Need)
        requires
            self.wf(),
        ensures
            r == self.need_spec(),
    {
        if !self.valid || self.body_complete {
            Need::Done
        } else if !self.mpv_complete || !self.head_complete {
            Need::Line
        } else {
            let eof = match self.version {
                HttpVersion::Http10 => true,
                _ => false,
            };
            match framing(&self.headers, eof) {
                Framing::Chunked => Need::ChunkSize,
                Framing::Length(n) => Need::Exact(n),
                Framing::ToEof => Need::ToEof,
                Framing::Empty => Need::Done,
            }
        }
    }

    /// Takes one line of the head: the request line first, then header lines up to
    /// the blank line. A request line with one space is HTTP/0.9 and completes the
    /// request; one with none, or a header line without a colon, makes it invalid.
    /// When the head ends and the body is empty, the request is complete.
    pub fn feed_line(&mut self, line: &[u8])
        requires
            old(self).wf(),
        ensures
            final(self).wf(),
            client_progress(*old(self), *final(self)),
            old(self).need_spec() != Need::Line ==> *final(self) == *old(self),
            old(self).need_spec() == Need::Line && !old(self).mpv_complete ==> {
                let n = *final(self);
                &&& n.mpv_complete
                &&& n.headers == old(self).headers
                &&& match request_line_spec(line@) {
                    RequestLineView::Invalid => !n.valid,
                    RequestLineView::Simple(p) => n.valid && n.method == HttpMethod::Get && n.path@ == text_of(p)
                        && n.version == HttpVersion::Http09 && n.head_complete && n.body_complete,
                    RequestLineView::Full(m, p, v) => n.valid && method_matches(m, n.method) && n.path@ == text_of(p)
                        && version_matches(v, n.version) && !n.head_complete && !n.body_complete,
                }
            },
            old(self).need_spec() == Need::Line && old(self).mpv_complete ==> {
                let n = *final(self);
                &&& n.method == old(self).method
                &&& n.path == old(self).path
                &&& n.version == old(self).version
                &&& match header_line_spec(line@) {
                    HeaderLineView::End => n.valid && n.head_complete && n.headers == old(self).headers
                        && n.body_complete == (framing_spec(n.headers@, n.reads_to_eof()) == Framing::Empty),
                    HeaderLineView::Invalid => !n.valid && n.headers == old(self).headers,
                    HeaderLineView::Field(name, value) => n.valid && !n.head_complete && !n.body_complete
                        && header_added(old(self).headers@, n.headers@, text_of(name), text_of(value)),
                }
            },
    {
        if !self.valid || self.body_complete || (self.mpv_complete && self.head_complete) {
            return;
        }
        if !self.mpv_complete {
            match parse_request_line(line) {
                RequestLine::Invalid => {
                    self.valid = false;
                },
                RequestLine::Simple(p) => {
                    self.method = HttpMethod::Get;
                    self.path = lossy_text(p.as_slice());
                    self.version = HttpVersion::Http09;
                    self.head_complete = true;
                    self.body_complete = true;
                },
                RequestLine::Full(m, p, v) => {
                    self.method = parse_method(m.as_slice());
                    self.path = lossy_text(p.as_slice());
                    self.version = parse_version(v.as_slice());
                },
            }
            self.mpv_complete = true;
        } else {
            match parse_header_line(line) {
                HeaderLine::End => {
                    self.head_complete = true;
                    let eof = match self.version {
                        HttpVersion::Http10 => true,
                        _ => false,
                    };
                    if framing(&self.headers, eof) == Framing::Empty {
                        self.body_complete = true;
                    }
                },
                HeaderLine::Invalid => {
                    self.valid = false;
                },
                HeaderLine::Field(name, value) => {
                    let n = lossy_text(name.as_slice());
                    let v = lossy_text(value.as_slice());
                    add_header_value(&mut self.headers, n, v);
                },
            }
        }
    }

    /// Takes a chunk-size line of a chunked body and returns the size; a size of zero
    /// completes the request.
    pub fn feed_chunk_size(&mut self, line: &[u8]) -> (r: usize)
        requires
            old(self).wf(),
        ensures
            final(self).wf(),
            client_progress(*old(self), *final(self)),
            old(self).need_spec() != Need::ChunkSize ==> *final(self) == *old(self) && r == 0,
            old(self).need_spec() == Need::ChunkSize ==> r as nat == chunk_size_spec(line@)
                && *final(self) == (HttpClient { body_complete: r == 0, ..*old(self) }),
    {
        if self.need() != Need::ChunkSize {
            return 0;
        }
        let n = chunk_size(line);
        if n == 0 {
            self.body_complete = true;
        }
        n
    }

    /// Takes body bytes read as `need` asked; `complete` says the body ends with them.
    pub fn feed_body(&mut self, data: &[u8], complete: bool)
        requires
            old(self).wf(),
        ensures
            final(self).wf(),
            client_progress(*old(self), *final(self)),
            old(self).need_spec() == Need::Done || old(self).need_spec() == Need::Line ==> *final(self) == *old(self),
            !(old(self).need_spec() == Need::Done || old(self).need_spec() == Need::Line) ==>
                final(self).body@ == old(self).body@ + data@ && final(self).body_complete == complete
                && final(self).headers == old(self).headers && final(self).valid,
    {
        match self.need() {
            Need::Done => {},
            Need::Line => {},
            _ => {
                self.body.extend_from_slice(data);
                if complete {
                    self.body_complete = true;
                }
            },
        }
    }
}


/// The progress flags of a response never go back, and nothing changes once the
/// response is complete or invalid.
pub open spec fn response_progress(a: HttpResponse, b: HttpResponse) -> bool {
    &&& (a.vcs_complete ==> b.vcs_complete)
    &&& (a.head_complete ==> b.head_complete)
    &&& (a.body_complete ==> b.body_complete)
    &&& (!a.valid ==> !b.valid)
    &&& ((a.body_complete || !a.valid) ==> b == a)
}

impl HttpResponse {
    pub open spec fn wf(&self) -> bool {
        &&& names_unique(self.headers@)
        &&& (self.head_complete ==> self.vcs_complete)
        &&& (self.body_complete ==> self.head_complete)
    }

    /// HTTP/1.0 and HTTP/0.9 responses without a length run to the end of the stream.
    pub open spec fn reads_to_eof(&self) -> bool {
        self.version == HttpVersion::Http10 || self.version == HttpVersion::Http09
    }

    pub open spec fn need_spec(&self) -> Need {
        if !self.valid || self.body_complete {
            Need::Done
        } else if !self.vcs_complete || !self.head_complete {
            Need::Line
        } else {
            body_need(framing_spec(self.headers@, self.reads_to_eof()))
        }
    }

    /// What the client must read next for this response.
    pub fn need(&self) -> (r: Need)
        requires
            self.wf(),
        ensures
            r == self.need_spec(),
    {
        if !self.valid || self.body_complete {
            Need::Done
        } else if !self.vcs_complete || !self.head_complete {
            Need::Line
        } else {
            let eof = match self.version {
                HttpVersion::Http10 => true,
                HttpVersion::Http09 => true,
                _ => false,
            };
            match framing(&self.headers, eof) {
                Framing::Chunked => Need::ChunkSize,
                Framing::Length(n) => Need::Exact(n),
                Framing::ToEof => Need::ToEof,
                Framing::Empty => Need::Done,
            }
        }
    }

    /// An HTTP/0.9 request gets a response without status line or head.
    pub fn expect_http09(&mut self)
        requires
            old(self).wf(),
        ensures
            final(self).wf(),
            response_progress(*old(self), *final(self)),
            old(self).valid && !old(self).body_complete ==> *final(self) == (HttpResponse {
                version: HttpVersion::Http09,
                vcs_complete: true,
                head_complete: true,
                ..*old(self)
            }),
    {
        if !self.valid || self.body_complete {
            return;
        }
        self.version = HttpVersion::Http09;
        self.vcs_complete = true;
        self.head_complete = true;
    }

    /// Takes one line of the head: the status line first, then header lines up to the
    /// blank line. A status line without two spaces, or a header line without a
    /// colon, makes the response invalid.
    pub fn feed_line(&mut self, line: &[u8])
        requires
            old(self).wf(),
        ensures
            final(self).wf(),
            response_progress(*old(self), *final(self)),
            old(self).need_spec() != Need::Line ==> *final(self) == *old(self),
            old(self).need_spec() == Need::Line && !old(self).vcs_complete ==> {
                let n = *final(self);
                &&& n.vcs_complete
                &&& n.headers == old(self).headers
                &&& !n.head_complete
                &&& match status_line_spec(line@) {
                    None => !n.valid,
                    Some((v, c, t)) => n.valid && version_matches(v, n.version) && n.code == code_spec(c)
                        && n.status@ == text_of(t),
                }
            },
            old(self).need_spec() == Need::Line && old(self).vcs_complete ==> {
                let n = *final(self);
                &&& n.version == old(self).version
                &&& n.code == old(self).code
                &&& n.status == old(self).status
                &&& match header_line_spec(line@) {
                    HeaderLineView::End => n.valid && n.head_complete && n.headers == old(self).headers
                        && n.body_complete == (framing_spec(n.headers@, n.reads_to_eof()) == Framing::Empty),
                    HeaderLineView::Invalid => !n.valid && n.headers == old(self).headers,
                    HeaderLineView::Field(name, value) => n.valid && !n.head_complete && !n.body_complete
                        && header_added(old(self).headers@, n.headers@, text_of(name), text_of(value)),
                }
            },
    {
        if !self.valid || self.body_complete || (self.vcs_complete && self.head_complete) {
            return;
        }
        if !self.vcs_complete {
            match parse_status_line(line) {
                StatusLine::Invalid => {
                    self.valid = false;
                },
                StatusLine::Status(v, c, t) => {
                    self.version = parse_version(v.as_slice());
                    self.code = parse_code(c.as_slice());
                    self.status = lossy_text(t.as_slice());
                },
            }
            self.vcs_complete = true;
        } else {
            match parse_header_line(line) {
                HeaderLine::End => {
                    self.head_complete = true;
                    let eof = match self.version {
                        HttpVersion::Http10 => true,
                        HttpVersion::Http09 => true,
                        _ => false,
                    };
                    if framing(&self.headers, eof) == Framing::Empty {
                        self.body_complete = true;
                    }
                },
                HeaderLine::Invalid => {
                    self.valid = false;
                },
                HeaderLine::Field(name, value) => {
                    let n = lossy_text(name.as_slice());
                    let v = lossy_text(value.as_slice());
                    add_header_value(&mut self.headers, n, v);
                },
            }
        }
    }

    /// Takes a chunk-size line of a chunked body and returns the size; a size of zero
    /// completes the response.
    pub fn feed_chunk_size(&mut self, line: &[u8]) -> (r: usize)
        requires
            old(self).wf(),
        ensures
            final(self).wf(),
            response_progress(*old(self), *final(self)),
            old(self).need_spec() != Need::ChunkSize ==> *final(self) == *old(self) && r == 0,
            old(self).need_spec() == Need::ChunkSize ==> r as nat == chunk_size_spec(line@)
                && *final(self) == (HttpResponse { body_complete: r == 0, ..*old(self) }),
    {
        if self.need() != Need::ChunkSize {
            return 0;
        }
        let n = chunk_size(line);
        if n == 0 {
            self.body_complete = true;
        }
        n
    }

    /// Takes body bytes read as `need` asked; `complete` says the body ends with them.
    pub fn feed_body(&mut self, data: &[u8], complete: bool)
        requires
            old(self).wf(),
        ensures
            final(self).wf(),
            response_progress(*old(self), *final(self)),
            old(self).need_spec() == Need::Done || old(self).need_spec() == Need::Line ==> *final(self) == *old(self),
            !(old(self).need_spec() == Need::Done || old(self).need_spec() == Need::Line) ==>
                final(self).body@ == old(self).body@ + data@ && final(self).body_complete == complete
                && final(self).headers == old(self).headers && final(self).valid,
    {
        match self.need() {
            Need::Done => {},
            Need::Line => {},
            _ => {
                self.body.extend_from_slice(data);
                if complete {
                    self.body_complete = true;
                }
            },
        }
    }
}

/// A chunked body read from `pos` of `buf`, with `acc` read so far: each chunk-size
/// line up to its LF, then that many bytes and the rest of their line, until a size
/// of zero. The bytes of the chunks and the position after the size-zero line.
pub open spec fn dechunk_spec(buf: Seq<u8>, pos: int, acc: Seq<u8>) -> Option<(Seq<u8>, int)>
    decreases buf.len() - pos,
{
    if pos < 0 || pos > buf.len() {
        None
    } else {
        match find_byte(buf, 10, pos as nat) {
            None => None,
            Some(nl) => {
                let n = chunk_size_spec(buf.subrange(pos, nl as int + 1));
                if n == 0 {
                    Some((acc, nl as int + 1))
                } else if nl + 1 + n > buf.len() {
                    None
                } else {
                    match find_byte(buf, 10, nl + 1 + n) {
                        None => None,
                        Some(e) => if e < pos || e >= buf.len() {
                            None
                        } else {
                            dechunk_spec(buf, e as int + 1, acc + buf.subrange(nl as int + 1, nl as int + 1 + n))
                        },
                    }
                }
            },
        }
    }
}

/// Reads a chunked body held in `buf`: the bytes of its chunks and the position after
/// its size-zero line; `None` when `buf` ends first.
pub fn decode_chunked(buf: &[u8]) -> (r: Option<(Vec<u8>, usize)>)
    ensures
        r matches Some((body, end)) ==> dechunk_spec(buf@, 0, seq![]) == Some((body@, end as int)),
        r is None ==> dechunk_spec(buf@, 0, seq![]) is None,
{
    let mut body: Vec<u8> = Vec::new();
    let mut pos: usize = 0;
    let len = buf.len();
    while pos <= len
        invariant
            len == buf@.len(),
            dechunk_spec(buf@, 0, seq![]) == dechunk_spec(buf@, pos as int, body@),
        decreases len + 1 - pos,
    {
        proof {
            lemma_find_byte_bounds(buf@, 10, pos as nat);
        }
        let nl = match find(buf, 10, pos) {
            None => {
                return None;
            },
            Some(nl) => nl,
        };
        let line = &buf[pos..nl + 1];
        let n = chunk_size(line);
        if n == 0 {
            return Some((body, nl + 1));
        }
        if n > len - (nl + 1) {
            return None;
        }
        proof {
            lemma_find_byte_bounds(buf@, 10, (nl + 1 + n) as nat);
        }
        let e = match find(buf, 10, nl + 1 + n) {
            None => {
                return None;
            },
            Some(e) => e,
        };
        let ghost old_body = body@;
        body.extend_from_slice(&buf[nl + 1..nl + 1 + n]);
        proof {
            assert(buf@.subrange(pos as int, nl + 1) == line@);
            assert(body@ =~= old_body + buf@.subrange(nl + 1, nl + 1 + n));
            assert(dechunk_spec(buf@, pos as int, old_body) == dechunk_spec(buf@, e + 1, old_body + buf@.subrange(nl + 1, nl + 1 + n)));
        }
        pos = e + 1;
    }
    None
}

/// A chunked body: each chunk framed by `get_chunk`, then the last chunk.
pub open spec fn chunked_encode(cs: Seq<Seq<u8>>) -> Seq<u8>
    decreases cs.len(),
{
    if cs.len() == 0 {
        last_chunk_spec()
    } else {
        chunk_spec(cs[0]) + chunked_encode(cs.drop_first())
    }
}

/// The chunks joined.
pub open spec fn join_chunks(cs: Seq<Seq<u8>>) -> Seq<u8>
    decreases cs.len(),
{
    if cs.len() == 0 {
        seq![]
    } else {
        cs[0] + join_chunks(cs.drop_first())
    }
}

proof fn lemma_find_skip(buf: Seq<u8>, b: u8, p: nat, q: nat)
    requires
        p <= q < buf.len(),
        buf[q as int] == b,
        forall|k: int| p <= k < q ==> buf[k] != b,
    ensures
        find_byte(buf, b, p) == Some(q),
    decreases q - p,
{
    if p < q {
        lemma_find_skip(buf, b, p + 1, q);
    }
}

proof fn lemma_hex_digits_plain(n: nat)
    ensures
        forall|k: int| 0 <= k < digits_of(n, 16).len() ==> {
            let c = #[trigger] digits_of(n, 16)[k];
            (48 <= c <= 57 || 65 <= c <= 70)
        },
        digits_of(n, 16).len() >= 1,
    decreases n,
{
    if n >= 16 {
        lemma_hex_digits_plain(n / 16);
        let d = digits_of(n, 16);
        assert(d.drop_last() == digits_of(n / 16, 16));
        assert forall|k: int| 0 <= k < d.len() implies {
            let c = #[trigger] d[k];
            (48 <= c <= 57 || 65 <= c <= 70)
        } by {
            if k < d.len() - 1 {
                assert(d[k] == d.drop_last()[k]);
            }
        }
    }
}

proof fn lemma_size_line(n: nat)
    requires
        n <= usize::MAX,
    ensures
        chunk_size_spec(digits_of(n, 16) + seq![13u8, 10]) == n,
{
    let d = digits_of(n, 16);
    let l = d + seq![13u8, 10];
    lemma_hex_digits_plain(n);
    crate::text::lemma_digits_round_trip(n, 16);
    assert(!crate::text::is_ws(l[0]));
    assert(crate::text::trim_start(l) == l);
    let l1 = l.drop_last();
    assert(l1 =~= d + seq![13u8]);
    assert(l1.drop_last() =~= d);
    assert(!crate::text::is_ws(d.last()));
    assert(crate::text::trim_end(d) == d);
    assert(crate::text::trim_end(l1) == crate::text::trim_end(d));
    assert(crate::text::trim_end(l) == crate::text::trim_end(l1));
}

proof fn lemma_dechunk_last(buf: Seq<u8>, p: int, acc: Seq<u8>)
    requires
        0 <= p,
        p + 5 <= buf.len(),
        buf.subrange(p, p + 5) == last_chunk_spec(),
    ensures
        dechunk_spec(buf, p, acc) == Some((acc, p + 3)),
{
    assert(buf[p + 1] == buf.subrange(p, p + 5)[1]);
    assert(buf[p + 2] == buf.subrange(p, p + 5)[2]);
    assert(buf[p] == buf.subrange(p, p + 5)[0]);
    lemma_find_skip(buf, 10, p as nat, (p + 2) as nat);
    assert(buf.subrange(p, p + 3) =~= seq![48u8, 13, 10]);
    assert(digits_of(0, 16) =~= seq![48u8]);
    assert(digits_of(0, 16) + seq![13u8, 10] =~= seq![48u8, 13, 10]);
    lemma_size_line(0);
    assert(chunk_size_spec(buf.subrange(p, p + 3)) == 0);
}

proof fn lemma_dechunk_step(buf: Seq<u8>, p: int, c: Seq<u8>, acc: Seq<u8>)
    requires
        0 <= p,
        0 < c.len() <= usize::MAX,
        p + chunk_spec(c).len() < buf.len(),
        buf.subrange(p, p + chunk_spec(c).len()) == chunk_spec(c),
    ensures
        dechunk_spec(buf, p, acc) == dechunk_spec(buf, p + chunk_spec(c).len(), acc + c),
{
    let d = digits_of(c.len(), 16);
    let dl: int = d.len() as int;
    let n: int = c.len() as int;
    let w = chunk_spec(c);
    lemma_hex_digits_plain(c.len());
    assert forall|k: int| 0 <= k < w.len() implies buf[p + k] == w[k] by {
        assert(buf.subrange(p, p + w.len())[k] == buf[p + k]);
    }
    assert forall|k: int| p <= k < p + dl + 1 implies buf[k] != 10u8 by {
        assert(buf[k] == w[k - p]);
        if k < p + dl {
            assert(w[k - p] == d[k - p]);
        }
    }
    assert(buf[p + dl + 1] == w[dl + 1]);
    lemma_find_skip(buf, 10, p as nat, (p + dl + 1) as nat);
    let nl = p + dl + 1;
    assert(buf.subrange(p, nl + 1) =~= d + seq![13u8, 10]);
    lemma_size_line(c.len());
    assert forall|j: int| 0 <= j < n implies buf.subrange(nl + 1, nl + 1 + n)[j] == c[j] by {
        assert(buf[nl + 1 + j] == w[dl + 2 + j]);
    }
    assert(buf.subrange(nl + 1, nl + 1 + n) =~= c);
    assert(buf[nl + 1 + n] == w[dl + 2 + n]);
    assert(buf[nl + 2 + n] == w[dl + 3 + n]);
    lemma_find_skip(buf, 10, (nl + 1 + n) as nat, (nl + 2 + n) as nat);
}

/// Reading back a chunked body made of non-empty chunks gives the chunks joined:
/// `decode_chunked` undoes `get_chunk` and the last chunk.
pub proof fn lemma_chunked_round_trip(pre: Seq<u8>, cs: Seq<Seq<u8>>, rest: Seq<u8>, acc: Seq<u8>)
    requires
        forall|i: int| 0 <= i < cs.len() ==> 0 < (#[trigger] cs[i]).len() <= usize::MAX,
    ensures
        dechunk_spec(pre + chunked_encode(cs) + rest, pre.len() as int, acc) matches Some((body, _))
            && body == acc + join_chunks(cs),
    decreases cs.len(),
{
    let buf = pre + chunked_encode(cs) + rest;
    let p: int = pre.len() as int;
    if cs.len() == 0 {
        assert(buf.subrange(p, p + 5) =~= last_chunk_spec());
        lemma_dechunk_last(buf, p, acc);
        assert(acc + join_chunks(cs) =~= acc);
    } else {
        let c = cs[0];
        let w = chunk_spec(c);
        assert(chunked_encode(cs) == w + chunked_encode(cs.drop_first()));
        let pre2 = pre + w;
        assert(pre2 + chunked_encode(cs.drop_first()) + rest =~= buf);
        assert(chunked_encode(cs.drop_first()).len() >= 5) by {
            lemma_chunked_encode_len(cs.drop_first());
        }
        assert(buf.subrange(p, p + w.len()) =~= w);
        lemma_dechunk_step(buf, p, c, acc);
        assert forall|i: int| 0 <= i < cs.drop_first().len() implies 0 < (#[trigger] cs.drop_first()[i]).len() <= usize::MAX by {
            assert(cs.drop_first()[i] == cs[i + 1]);
        }
        lemma_chunked_round_trip(pre2, cs.drop_first(), rest, acc + c);
        assert(acc + c + join_chunks(cs.drop_first()) =~= acc + join_chunks(cs));
    }
}

proof fn lemma_chunked_encode_len(cs: Seq<Seq<u8>>)
    ensures
        chunked_encode(cs).len() >= 5,
    decreases cs.len(),
{
    if cs.len() > 0 {
        lemma_chunked_encode_len(cs.drop_first());
    }
}


/// Bytes that start and end with something other than white space (or none).
pub open spec fn no_ws_ends(s: Seq<u8>) -> bool {
    s.len() == 0 || (!crate::text::is_ws(s[0]) && !crate::text::is_ws(s.last()))
}

proof fn lemma_trim_start_ws(w: Seq<u8>, x: Seq<u8>)
    requires
        forall|i: int| 0 <= i < w.len() ==> crate::text::is_ws(#[trigger] w[i]),
    ensures
        crate::text::trim_start(w + x) == crate::text::trim_start(x),
    decreases w.len(),
{
    if w.len() > 0 {
        assert((w + x).drop_first() =~= w.drop_first() + x);
        assert((w + x)[0] == w[0]);
        lemma_trim_start_ws(w.drop_first(), x);
    } else {
        assert(w + x =~= x);
    }
}

proof fn lemma_trim_end_ws(x: Seq<u8>, w: Seq<u8>)
    requires
        forall|i: int| 0 <= i < w.len() ==> crate::text::is_ws(#[trigger] w[i]),
    ensures
        crate::text::trim_end(x + w) == crate::text::trim_end(x),
    decreases w.len(),
{
    if w.len() > 0 {
        assert((x + w).drop_last() =~= x + w.drop_last());
        assert((x + w).last() == w.last());
        lemma_trim_end_ws(x, w.drop_last());
    } else {
        assert(x + w =~= x);
    }
}

/// Trimming white space from around `v` gives `v`.
proof fn lemma_trim_around(w1: Seq<u8>, v: Seq<u8>, w2: Seq<u8>)
    requires
        forall|i: int| 0 <= i < w1.len() ==> crate::text::is_ws(#[trigger] w1[i]),
        forall|i: int| 0 <= i < w2.len() ==> crate::text::is_ws(#[trigger] w2[i]),
        no_ws_ends(v),
    ensures
        trim(w1 + v + w2) == v,
{
    assert(w1 + v + w2 =~= w1 + (v + w2));
    lemma_trim_start_ws(w1, v + w2);
    if v.len() > 0 {
        assert((v + w2)[0] == v[0]);
        assert(crate::text::trim_start(v + w2) == v + w2);
        lemma_trim_end_ws(v, w2);
        assert(crate::text::trim_end(v) == v);
    } else {
        assert(v + w2 =~= w2);
        lemma_trim_start_ws(w2, Seq::<u8>::empty());
        assert(w2 + Seq::<u8>::empty() =~= w2);
        assert(crate::text::trim_start(Seq::<u8>::empty()) == Seq::<u8>::empty());
        assert(crate::text::trim_end(Seq::<u8>::empty()) == Seq::<u8>::empty());
    }
}

/// A header line as a writer emits it, `name: value` CR LF, parses back to the
/// lower-cased name and the value, when the name holds no colon and neither part
/// has white space at its ends.
pub proof fn lemma_header_line_round_trip(name: Seq<u8>, value: Seq<u8>)
    requires
        name.len() > 0,
        no_ws_ends(name),
        no_ws_ends(value),
        forall|i: int| 0 <= i < name.len() ==> #[trigger] name[i] != 58,
    ensures
        header_line_spec(name + seq![58u8, 32] + value + seq![13u8, 10]) == HeaderLineView::Field(lower_bytes(name), value),
{
    let line = name + seq![58u8, 32] + value + seq![13u8, 10];
    let k = name.len();
    assert forall|i: int| 0 <= i < k implies line[i] != 58 by {
        assert(line[i] == name[i]);
    }
    assert(line[k as int] == 58);
    lemma_find_skip(line, 58, 0, k);
    assert(line.subrange(0, k as int) =~= name);
    lemma_trim_around(Seq::<u8>::empty(), name, Seq::<u8>::empty());
    assert(Seq::<u8>::empty() + name + Seq::<u8>::empty() =~= name);
    assert(line.subrange(k as int + 1, line.len() as int) =~= seq![32u8] + value + seq![13u8, 10]);
    lemma_trim_around(seq![32u8], value, seq![13u8, 10]);
    assert(line =~= Seq::<u8>::empty() + name + (seq![58u8, 32] + value + seq![13u8, 10]));
    assert(crate::text::trim_start(line) == line);
    lemma_trim_end_nonempty(line);
}

proof fn lemma_trim_end_nonempty(s: Seq<u8>)
    requires
        s.len() > 0,
        !crate::text::is_ws(s[0]),
    ensures
        crate::text::trim_end(s).len() > 0,
    decreases s.len(),
{
    if s.len() > 1 && crate::text::is_ws(s.last()) {
        assert(s.drop_last()[0] == s[0]);
        lemma_trim_end_nonempty(s.drop_last());
    }
}

/// A request line as a writer emits it, `method path version` CR LF, splits back
/// into its three parts when the method and path hold no space.
pub proof fn lemma_request_line_round_trip(m: Seq<u8>, p: Seq<u8>, v: Seq<u8>)
    requires
        forall|i: int| 0 <= i < m.len() ==> #[trigger] m[i] != 32,
        forall|i: int| 0 <= i < p.len() ==> #[trigger] p[i] != 32,
    ensures
        request_line_spec(m + seq![32u8] + p + seq![32u8] + v + seq![13u8, 10]) == RequestLineView::Full(m, p, v),
{
    let line = m + seq![32u8] + p + seq![32u8] + v + seq![13u8, 10];
    let s = m + seq![32u8] + p + seq![32u8] + v;
    assert(line.drop_last() =~= s + seq![13u8]);
    assert((s + seq![13u8]).drop_last() =~= s);
    assert(strip_eol(line) == s);
    let a = m.len();
    let b = m.len() + 1 + p.len();
    assert forall|i: int| 0 <= i < a implies s[i] != 32 by {
        assert(s[i] == m[i]);
    }
    lemma_find_skip(s, 32, 0, a);
    assert forall|i: int| a + 1 <= i < b implies s[i] != 32 by {
        assert(s[i] == p[i - a - 1]);
    }
    lemma_find_skip(s, 32, (a + 1) as nat, b);
    assert(s.subrange(0, a as int) =~= m);
    assert(s.subrange(a as int + 1, b as int) =~= p);
    assert(s.subrange(b as int + 1, s.len() as int) =~= v);
}

/// The blank line a writer puts after the headers ends the head, and the
/// `Content-Length` value it writes reads back as the body's length.
pub proof fn lemma_head_end_and_length(n: nat)
    requires
        n <= usize::MAX,
    ensures
        header_line_spec(seq![13u8, 10]) == HeaderLineView::End,
        number_spec(digits_of(n, 10), 10) == Some(n),
{
    let e = seq![13u8, 10];
    assert(e.drop_first() =~= seq![10u8]);
    assert(seq![10u8].drop_first() =~= Seq::<u8>::empty());
    assert(crate::text::trim_start(Seq::<u8>::empty()) == Seq::<u8>::empty());
    assert(crate::text::trim_start(seq![10u8]) == crate::text::trim_start(Seq::<u8>::empty()));
    assert(crate::text::trim_start(e) == crate::text::trim_start(seq![10u8]));
    assert(crate::text::trim_end(Seq::<u8>::empty()) == Seq::<u8>::empty());
    assert(trim(e).len() == 0);
    crate::text::lemma_digits_round_trip(n, 10);
}
/// `new` is `old` with `value` added under `name`.
pub open spec fn header_added(old: Seq<(String, Vec<String>)>, new: Seq<(String, Vec<String>)>, name: Seq<char>, value: Seq<char>) -> bool {
    match header_index(old, name) {
        Some(i) => new.len() == old.len() && new[i].0@ == name
            && new[i].1@.map_values(|s: String| s@) == old[i].1@.map_values(|s: String| s@).push(value)
            && forall|k: int| 0 <= k < old.len() && k != i ==> #[trigger] new[k] == old[k],
        None => new.len() == old.len() + 1 && new.subrange(0, old.len() as int) == old
            && new.last().0@ == name && new.last().1@.map_values(|s: String| s@) == seq![value],
    }
}
} // verus!
