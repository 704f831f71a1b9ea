use vstd::prelude::*;
use crate::huffman::HuffmanError;
use crate::hpack::HpackError;
use vstd::string::StringSliceAdditionalSpecFns;

verus! {

#[verifier::external_type_specification]
#[verifier::external_body]
pub struct ExIoError(std::io::Error);

#[derive(Debug, Clone, Copy, PartialEq, Eq, Structural)]
pub enum HttpType {
    Http1,
    Http2,
    Http3,
}

impl HttpType {
    /// The name of the protocol family.
    pub fn name(&self) -> (r: String)
        ensures
            *self == HttpType::Http1 ==> r@ == "Http1"@,
            *self == HttpType::Http2 ==> r@ == "Http2"@,
            *self == HttpType::Http3 ==> r@ == "Http3"@,
    {
        match self {
            HttpType::Http1 => "Http1".to_owned(),
            HttpType::Http2 => "Http2".to_owned(),
            HttpType::Http3 => "Http3".to_owned(),
        }
    }
}

#[derive(Debug, Clone, PartialEq, Eq)]
pub enum HttpVersion {
    Unknown(Option<String>),
    Debug,
    Http09,
    Http10,
    Http11,
    Http2,
    Http3,
}

/// How a version is written.
pub open spec fn version_text(v: HttpVersion) -> Seq<char> {
    match v {
        HttpVersion::Unknown(_) => "Unknown"@,
        HttpVersion::Debug => "Debug"@,
        HttpVersion::Http09 => "HTTP/0.9"@,
        HttpVersion::Http10 => "HTTP/1.0"@,
        HttpVersion::Http11 => "HTTP/1.1"@,
        HttpVersion::Http2 => "HTTP/2"@,
        HttpVersion::Http3 => "HTTP/3"@,
    }
}

impl HttpVersion {
    pub fn is_unknown(&self) -> (r: bool)
        ensures
            r == (self is Unknown),
    {
        match self {
            HttpVersion::Unknown(_) => true,
            _ => false,
        }
    }

    pub fn is_debug(&self) -> (r: bool)
        ensures
            r == (self is Debug),
    {
        match self {
            HttpVersion::Debug => true,
            _ => false,
        }
    }

    pub fn is_http09(&self) -> (r: bool)
        ensures
            r == (self is Http09),
    {
        match self {
            HttpVersion::Http09 => true,
            _ => false,
        }
    }

    pub fn is_http10(&self) -> (r: bool)
        ensures
            r == (self is Http10),
    {
        match self {
            HttpVersion::Http10 => true,
            _ => false,
        }
    }

    pub fn is_http11(&self) -> (r: bool)
        ensures
            r == (self is Http11),
    {
        match self {
            HttpVersion::Http11 => true,
            _ => false,
        }
    }

    pub fn is_http2(&self) -> (r: bool)
        ensures
            r == (self is Http2),
    {
        match self {
            HttpVersion::Http2 => true,
            _ => false,
        }
    }

    pub fn is_http3(&self) -> (r: bool)
        ensures
            r == (self is Http3),
    {
        match self {
            HttpVersion::Http3 => true,
            _ => false,
        }
    }

    /// The version as written on the wire; an unknown version as it was read.
    pub fn to_string_unknown(&self) -> (r: String)
        ensures
            self matches HttpVersion::Unknown(Some(s)) ==> r@ == s@,
            !(self matches HttpVersion::Unknown(Some(_))) ==> r@ == version_text(*self),
    {
        match self {
            HttpVersion::Unknown(Some(s)) => s.clone(),
            HttpVersion::Unknown(None) => "Unknown".to_owned(),
            HttpVersion::Debug => "Debug".to_owned(),
            HttpVersion::Http09 => "HTTP/0.9".to_owned(),
            HttpVersion::Http10 => "HTTP/1.0".to_owned(),
            HttpVersion::Http11 => "HTTP/1.1".to_owned(),
            HttpVersion::Http2 => "HTTP/2".to_owned(),
            HttpVersion::Http3 => "HTTP/3".to_owned(),
        }
    }
}

#[derive(Debug, Clone, PartialEq, Eq)]
pub enum HttpMethod {
    Unknown(Option<String>),
    Get,
    Head,
    Post,
    Put,
    Delete,
    Connect,
    Options,
    Trace,
}

/// How a method is written; an unknown one as it was read.
pub open spec fn method_text(m: HttpMethod) -> Seq<char> {
    match m {
        HttpMethod::Unknown(Some(s)) => s@,
        HttpMethod::Unknown(None) => "UNKNOWN"@,
        HttpMethod::Get => "GET"@,
        HttpMethod::Head => "HEAD"@,
        HttpMethod::Post => "POST"@,
        HttpMethod::Put => "PUT"@,
        HttpMethod::Delete => "DELETE"@,
        HttpMethod::Connect => "CONNECT"@,
        HttpMethod::Options => "OPTIONS"@,
        HttpMethod::Trace => "TRACE"@,
    }
}

/// ASCII lower case of a byte.
pub open spec fn lower_byte(b: u8) -> u8 {
    if 65 <= b <= 90 { (b + 32) as u8 } else { b }
}

/// ASCII lower case of a byte string.
pub open spec fn lower_bytes(s: Seq<u8>) -> Seq<u8> {
    Seq::new(s.len(), |i: int| lower_byte(s[i]))
}

/// The method whose name is `s`, ignoring ASCII case.
pub open spec fn known_method(s: Seq<u8>) -> Option<HttpMethod> {
    let l = lower_bytes(s);
    if l == seq![103u8, 101, 116] {
        Some(HttpMethod::Get)
    } else if l == seq![104u8, 101, 97, 100] {
        Some(HttpMethod::Head)
    } else if l == seq![112u8, 111, 115, 116] {
        Some(HttpMethod::Post)
    } else if l == seq![112u8, 117, 116] {
        Some(HttpMethod::Put)
    } else if l == seq![100u8, 101, 108, 101, 116, 101] {
        Some(HttpMethod::Delete)
    } else if l == seq![99u8, 111, 110, 110, 101, 99, 116] {
        Some(HttpMethod::Connect)
    } else if l == seq![111u8, 112, 116, 105, 111, 110, 115] {
        Some(HttpMethod::Options)
    } else if l == seq![116u8, 114, 97, 99, 101] {
        Some(HttpMethod::Trace)
    } else {
        None
    }
}

/// ASCII lower case of a byte.
pub fn to_lower_byte(b: u8) -> (r: u8)
    ensures
        r == lower_byte(b),
{
    if 65 <= b && b <= 90 {
        b + 32
    } else {
        b
    }
}

/// Whether `a`, in ASCII lower case, is `lower`.
pub fn eq_lower(a: &[u8], lower: &[u8]) -> (r: bool)
    ensures
        r == (lower_bytes(a@) == lower@),
{
    if a.len() != lower.len() {
        assert(lower_bytes(a@).len() != lower@.len());
        return false;
    }
    let mut i: usize = 0;
    while i < a.len()
        invariant
            a@.len() == lower@.len(),
            i <= a@.len(),
            forall|k: int| 0 <= k < i ==> lower_byte(#[trigger] a@[k]) == lower@[k],
        decreases a@.len() - i,
    {
        if to_lower_byte(a[i]) != lower[i] {
            assert(lower_bytes(a@)[i as int] != lower@[i as int]);
            return false;
        }
        i += 1;
    }
    assert(lower_bytes(a@) =~= lower@);
    true
}

impl HttpMethod {
    /// The method named `string`, ignoring ASCII case; any other name is kept as
    /// `Unknown`.
    pub fn from(string: &str) -> (r: Self)
        ensures
            known_method(string.spec_bytes()) matches Some(m) ==> r == m,
            known_method(string.spec_bytes()) is None ==> (r matches HttpMethod::Unknown(Some(s)) && s@ == string@),
    {
        let b = string.as_bytes();
        if eq_lower(b, &[103u8, 101, 116]) {
            HttpMethod::Get
        } else if eq_lower(b, &[104u8, 101, 97, 100]) {
            HttpMethod::Head
        } else if eq_lower(b, &[112u8, 111, 115, 116]) {
            HttpMethod::Post
        } else if eq_lower(b, &[112u8, 117, 116]) {
            HttpMethod::Put
        } else if eq_lower(b, &[100u8, 101, 108, 101, 116, 101]) {
            HttpMethod::Delete
        } else if eq_lower(b, &[99u8, 111, 110, 110, 101, 99, 116]) {
            HttpMethod::Connect
        } else if eq_lower(b, &[111u8, 112, 116, 105, 111, 110, 115]) {
            HttpMethod::Options
        } else if eq_lower(b, &[116u8, 114, 97, 99, 101]) {
            HttpMethod::Trace
        } else {
            HttpMethod::Unknown(Some(string.to_owned()))
        }
    }

    pub fn is_unknown(&self) -> (r: bool)
        ensures
            r == (self is Unknown),
    {
        match self {
            HttpMethod::Unknown(_) => true,
            _ => false,
        }
    }

    pub fn is_get(&self) -> (r: bool)
        ensures
            r == (self is Get),
    {
        match self {
            HttpMethod::Get => true,
            _ => false,
        }
    }

    pub fn is_head(&self) -> (r: bool)
        ensures
            r == (self is Head),
    {
        match self {
            HttpMethod::Head => true,
            _ => false,
        }
    }

    pub fn is_post(&self) -> (r: bool)
        ensures
            r == (self is Post),
    {
        match self {
            HttpMethod::Post => true,
            _ => false,
        }
    }

    pub fn is_put(&self) -> (r: bool)
        ensures
            r == (self is Put),
    {
        match self {
            HttpMethod::Put => true,
            _ => false,
        }
    }

    pub fn is_delete(&self) -> (r: bool)
        ensures
            r == (self is Delete),
    {
        match self {
            HttpMethod::Delete => true,
            _ => false,
        }
    }

    pub fn is_connect(&self) -> (r: bool)
        ensures
            r == (self is Connect),
    {
        match self {
            HttpMethod::Connect => true,
            _ => false,
        }
    }

    pub fn is_options(&self) -> (r: bool)
        ensures
            r == (self is Options),
    {
        match self {
            HttpMethod::Options => true,
            _ => false,
        }
    }

    pub fn is_trace(&self) -> (r: bool)
        ensures
            r == (self is Trace),
    {
        match self {
            HttpMethod::Trace => true,
            _ => false,
        }
    }

    /// The method as written on the wire.
    pub fn name(&self) -> (r: String)
        ensures
            r@ == method_text(*self),
    {
        match self {
            HttpMethod::Unknown(Some(s)) => s.clone(),
            HttpMethod::Unknown(None) => "UNKNOWN".to_owned(),
            HttpMethod::Get => "GET".to_owned(),
            HttpMethod::Head => "HEAD".to_owned(),
            HttpMethod::Post => "POST".to_owned(),
            HttpMethod::Put => "PUT".to_owned(),
            HttpMethod::Delete => "DELETE".to_owned(),
            HttpMethod::Connect => "CONNECT".to_owned(),
            HttpMethod::Options => "OPTIONS".to_owned(),
            HttpMethod::Trace => "TRACE".to_owned(),
        }
    }
}

/// A request as the server sees it.
#[derive(Debug, Clone)]
pub struct HttpClient {
    pub valid: bool,
    pub mpv_complete: bool,
    pub head_complete: bool,
    pub body_complete: bool,
    pub method: HttpMethod,
    pub path: String,
    pub version: HttpVersion,
    /// Lower-cased header names, each once, with their values in order.
    pub headers: Vec<(String, Vec<String>)>,
    pub body: Vec<u8>,
    pub host: Option<String>,
    pub scheme: Option<String>,
}

pub open spec fn is_fresh_client(c: HttpClient) -> bool {
    &&& c.valid
    &&& !c.mpv_complete
    &&& !c.head_complete
    &&& !c.body_complete
    &&& c.method == HttpMethod::Unknown(None)
    &&& c.path@.len() == 0
    &&& c.version == HttpVersion::Unknown(None)
    &&& c.headers@.len() == 0
    &&& c.body@.len() == 0
    &&& c.host is None
    &&& c.scheme is None
}

impl Default for HttpClient {
    fn default() -> (r: Self)
        ensures
            is_fresh_client(r),
    {
        HttpClient {
            valid: true,
            mpv_complete: false,
            head_complete: false,
            body_complete: false,
            method: HttpMethod::Unknown(None),
            path: String::new(),
            version: HttpVersion::Unknown(None),
            headers: Vec::new(),
            body: Vec::new(),
            host: None,
            scheme: None,
        }
    }
}

impl HttpClient {
    pub fn reset(&mut self)
        ensures
            is_fresh_client(*final(self)),
    {
        *self = HttpClient::default();
    }
}

/// A response as the client sees it.
#[derive(Debug, Clone)]
pub struct HttpResponse {
    pub valid: bool,
    pub vcs_complete: bool,
    pub head_complete: bool,
    pub body_complete: bool,
    pub version: HttpVersion,
    pub code: u16,
    pub status: String,
    /// Lower-cased header names, each once, with their values in order.
    pub headers: Vec<(String, Vec<String>)>,
    pub body: Vec<u8>,
}

pub open spec fn is_fresh_response(r: HttpResponse) -> bool {
    &&& r.valid
    &&& !r.vcs_complete
    &&& !r.head_complete
    &&& !r.body_complete
    &&& r.version == HttpVersion::Unknown(None)
    &&& r.code == 0
    &&& r.status@.len() == 0
    &&& r.headers@.len() == 0
    &&& r.body@.len() == 0
}

impl Default for HttpResponse {
    fn default() -> (r: Self)
        ensures
            is_fresh_response(r),
    {
        HttpResponse {
            valid: true,
            vcs_complete: false,
            head_complete: false,
            body_complete: false,
            version: HttpVersion::Unknown(None),
            code: 0,
            status: String::new(),
            headers: Vec::new(),
            body: Vec::new(),
        }
    }
}

impl HttpResponse {
    pub fn reset(&mut self)
        ensures
            is_fresh_response(*final(self)),
    {
        *self = HttpResponse::default();
    }
}

#[derive(Debug)]
pub enum LibError {
    Io(std::io::Error),
    Huffman(HuffmanError),
    Hpack(HpackError),
    NotConnected,
    ConnectionClosed,
    StreamClosed,
    HeadersSent,
    Invalid,
    InvalidFrame,
    InvalidUpgrade,
    InvalidStream,
    InvalidString,
    NotAccepted,
    ResetStream,
    Goaway,
    ProtocolError,
}

impl LibError {
    pub fn io(&self) -> (r: Option<&std::io::Error>)
        ensures
            r.is_some() == (self is Io),
    {
        match self {
            LibError::Io(e) => Some(e),
            _ => None,
        }
    }

    pub fn huffman(&self) -> (r: Option<&HuffmanError>)
        ensures
            self matches LibError::Huffman(e) ==> r == Some(e),
            !(self is Huffman) ==> r is None,
    {
        match self {
            LibError::Huffman(e) => Some(e),
            _ => None,
        }
    }

    pub fn hpack(&self) -> (r: Option<&HpackError>)
        ensures
            self matches LibError::Hpack(e) ==> r == Some(e),
            !(self is Hpack) ==> r is None,
    {
        match self {
            LibError::Hpack(e) => Some(e),
            _ => None,
        }
    }

    pub fn is_not_connected(&self) -> (r: bool)
        ensures
            r == (self is NotConnected),
    {
        match self {
            LibError::NotConnected => true,
            _ => false,
        }
    }

    pub fn is_connection_closed(&self) -> (r: bool)
        ensures
            r == (self is ConnectionClosed),
    {
        match self {
            LibError::ConnectionClosed => true,
            _ => false,
        }
    }

    pub fn is_stream_closed(&self) -> (r: bool)
        ensures
            r == (self is StreamClosed),
    {
        match self {
            LibError::StreamClosed => true,
            _ => false,
        }
    }

    pub fn is_headers_sent(&self) -> (r: bool)
        ensures
            r == (self is HeadersSent),
    {
        match self {
            LibError::HeadersSent => true,
            _ => false,
        }
    }

    pub fn is_invalid(&self) -> (r: bool)
        ensures
            r == (self is Invalid),
    {
        match self {
            LibError::Invalid => true,
            _ => false,
        }
    }

    pub fn is_invalid_frame(&self) -> (r: bool)
        ensures
            r == (self is InvalidFrame),
    {
        match self {
            LibError::InvalidFrame => true,
            _ => false,
        }
    }

    pub fn is_invalid_upgrade(&self) -> (r: bool)
        ensures
            r == (self is InvalidUpgrade),
    {
        match self {
            LibError::InvalidUpgrade => true,
            _ => false,
        }
    }

    pub fn is_invalid_stream(&self) -> (r: bool)
        ensures
            r == (self is InvalidStream),
    {
        match self {
            LibError::InvalidStream => true,
            _ => false,
        }
    }

    pub fn is_invalid_string(&self) -> (r: bool)
        ensures
            r == (self is InvalidString),
    {
        match self {
            LibError::InvalidString => true,
            _ => false,
        }
    }

    pub fn is_not_accepted(&self) -> (r: bool)
        ensures
            r == (self is NotAccepted),
    {
        match self {
            LibError::NotAccepted => true,
            _ => false,
        }
    }

    pub fn is_reset_stream(&self) -> (r: bool)
        ensures
            r == (self is ResetStream),
    {
        match self {
            LibError::ResetStream => true,
            _ => false,
        }
    }

    pub fn is_goaway(&self) -> (r: bool)
        ensures
            r == (self is Goaway),
    {
        match self {
            LibError::Goaway => true,
            _ => false,
        }
    }

    pub fn is_protocol_error(&self) -> (r: bool)
        ensures
            r == (self is ProtocolError),
    {
        match self {
            LibError::ProtocolError => true,
            _ => false,
        }
    }
}

/// Relies on `std::io::Error`'s `Display` (through `to_string`): a description of
/// the error, which depends on its kind and cause.
#[verifier::external_body]
fn io_error_text(e: &std::io::Error) -> String {
    e.to_string()
}

impl LibError {
    /// A description of the error for people.
    pub fn message(&self) -> (r: String)
        ensures
            self is NotConnected ==> r@ == "Not connected to endpoint"@,
            self is ConnectionClosed ==> r@ == "Connection is closed"@,
            self is ProtocolError ==> r@ == "Protocol error"@,
    {
        match self {
            LibError::Io(e) => io_error_text(e),
            LibError::Huffman(_) => "Huffman coding error".to_owned(),
            LibError::Hpack(_) => "HPACK error".to_owned(),
            LibError::NotConnected => "Not connected to endpoint".to_owned(),
            LibError::ConnectionClosed => "Connection is closed".to_owned(),
            LibError::StreamClosed => "Stream is closed".to_owned(),
            LibError::HeadersSent => "Headers are sent".to_owned(),
            LibError::Invalid => "Invalid".to_owned(),
            LibError::InvalidFrame => "Invalid frame".to_owned(),
            LibError::InvalidUpgrade => "Invalid upgrade".to_owned(),
            LibError::InvalidStream => "Invalid stream".to_owned(),
            LibError::InvalidString => "Invalid string".to_owned(),
            LibError::NotAccepted => "Not accepted".to_owned(),
            LibError::ResetStream => "stream reset".to_owned(),
            LibError::Goaway => "Goaway received".to_owned(),
            LibError::ProtocolError => "Protocol error".to_owned(),
        }
    }
}

pub type LibResult<T> = Result<T, LibError>;

} // verus!
