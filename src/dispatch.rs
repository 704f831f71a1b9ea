use vstd::prelude::*;
use crate::decoder::Decoder;
use crate::frame::create_spec;
use crate::frame::has_flag;
use crate::frame::Http2Frame;
use crate::frame::Http2FrameType;
use crate::frame::FLAG_END_HEADERS;
use crate::frame::FLAG_END_STREAM;
use crate::frame::MAX_FRAME_LENGTH;
use crate::session::peer_stream_allowed;
use crate::session::peer_allowed_spec;
use crate::session::Mode;
use crate::session::MAX_WINDOW;
use crate::decoder::decode_all_spec;
use crate::hpack::fields_view;
use crate::hpack::Field;
use crate::settings::Http2Settings;
use crate::shared::LibError;

verus! {

/// The big-endian bytes of a 32-bit value.
pub open spec fn be32(v: u32) -> Seq<u8> {
    seq![(v / 16777216) as u8, ((v / 65536) % 256) as u8, ((v / 256) % 256) as u8, (v % 256) as u8]
}

pub fn be32_bytes(v: u32) -> (r: Vec<u8>)
    ensures
        r@ == be32(v),
{
    let r: Vec<u8> = vec![(v / 16777216) as u8, ((v / 65536) % 256) as u8, ((v / 256) % 256) as u8, (v % 256) as u8];
    assert(r@ =~= be32(v));
    r
}

/// The 32-bit big-endian value of four bytes, reserved bit included.
pub open spec fn be32_value(b: Seq<u8>) -> nat {
    b[0] as nat * 16777216 + b[1] as nat * 65536 + b[2] as nat * 256 + b[3] as nat
}

/// WINDOW_UPDATE (RFC 7540 section 6.9).
pub fn window_update_frame(stream_id: u32, size: u32) -> (r: Vec<u8>)
    ensures
        r@ == create_spec(Http2FrameType::WindowUpdate, 0, stream_id, None, Some(be32(size)), None),
{
    let p = be32_bytes(size);
    Http2Frame::create(Http2FrameType::WindowUpdate, 0, stream_id, None, Some(p.as_slice()), None)
}

/// RST_STREAM (RFC 7540 section 6.4).
pub fn rst_stream_frame(stream_id: u32, code: u32) -> (r: Vec<u8>)
    ensures
        r@ == create_spec(Http2FrameType::RstStream, 0, stream_id, None, Some(be32(code)), None),
{
    let p = be32_bytes(code);
    Http2Frame::create(Http2FrameType::RstStream, 0, stream_id, None, Some(p.as_slice()), None)
}

/// PRIORITY (RFC 7540 section 6.3): the dependency and the weight.
pub fn priority_frame(stream_id: u32, dependency: u32, weight: u8) -> (r: Vec<u8>)
    ensures
        r@ == create_spec(Http2FrameType::Priority, 0, stream_id, None, Some(be32(dependency).push(weight)), None),
{
    let mut p = be32_bytes(dependency);
    p.push(weight);
    Http2Frame::create(Http2FrameType::Priority, 0, stream_id, None, Some(p.as_slice()), None)
}

/// SETTINGS (RFC 7540 section 6.5) on stream 0.
pub fn settings_frame(settings: &Http2Settings) -> (r: Vec<u8>)
    ensures
        r@ == create_spec(Http2FrameType::Settings, 0, 0, None, Some(crate::settings::setting_bytes(1, settings.header_table_size)
            + crate::settings::setting_bytes(2, settings.enable_push) + crate::settings::setting_bytes(3, settings.max_concurrent_streams)
            + crate::settings::setting_bytes(4, settings.initial_window_size) + crate::settings::setting_bytes(5, settings.max_frame_size)
            + crate::settings::setting_bytes(6, settings.max_header_list_size)), None),
{
    let p = settings.to_vec();
    Http2Frame::create(Http2FrameType::Settings, 0, 0, None, Some(p.as_slice()), None)
}

/// PING (RFC 7540 section 6.7) on stream 0, with ACK when `ack`.
pub fn ping_frame(ack: bool, payload: &[u8]) -> (r: Vec<u8>)
    ensures
        r@ == create_spec(Http2FrameType::Ping, if ack { 1u8 } else { 0u8 }, 0, None, Some(payload@), None),
{
    Http2Frame::create(Http2FrameType::Ping, if ack { 1 } else { 0 }, 0, None, Some(payload), None)
}

/// GOAWAY (RFC 7540 section 6.8): last stream id, error code and debug data.
pub fn goaway_frame(last_stream_id: u32, code: u32, debug: &[u8]) -> (r: Vec<u8>)
    ensures
        r@ == create_spec(Http2FrameType::Goaway, 0, 0, None, Some(be32(last_stream_id) + be32(code) + debug@), None),
{
    let mut p = be32_bytes(last_stream_id);
    let c = be32_bytes(code);
    p.extend_from_slice(c.as_slice());
    p.extend_from_slice(debug);
    assert(p@ =~= be32(last_stream_id) + be32(code) + debug@);
    Http2Frame::create(Http2FrameType::Goaway, 0, 0, None, Some(p.as_slice()), None)
}

/// The fragments of a header block: pieces of at most `max` bytes, at least one.
pub open spec fn fragments(block: Seq<u8>, max: nat) -> Seq<Seq<u8>>
    decreases block.len(),
{
    if block.len() <= max || max == 0 {
        seq![block]
    } else {
        seq![block.subrange(0, max as int)] + fragments(block.subrange(max as int, block.len() as int), max)
    }
}

/// CONTINUATION frames for the fragments: `last_flags` on the last, none on the
/// others.
pub open spec fn continuation_frames(stream_id: u32, last_flags: u8, frags: Seq<Seq<u8>>) -> Seq<u8>
    decreases frags.len(),
{
    if frags.len() == 0 {
        seq![]
    } else {
        let flags: u8 = if frags.len() == 1 { last_flags } else { 0 };
        create_spec(Http2FrameType::Continuation, flags, stream_id, None, Some(frags[0]), None)
            + continuation_frames(stream_id, last_flags, frags.drop_first())
    }
}

/// A header block as a HEADERS frame, or PUSH_PROMISE for a promise, then
/// CONTINUATION frames: each piece at most `max` bytes, and END_HEADERS and (when
/// `end`) END_STREAM on the last frame only.
pub open spec fn header_block_frames(ftype: Http2FrameType, stream_id: u32, end: bool, prefix: Seq<u8>, block: Seq<u8>, max: nat) -> Seq<u8> {
    let first_room = (max - prefix.len()) as nat;
    let first = if block.len() <= first_room { block } else { block.subrange(0, first_room as int) };
    let rest = if block.len() <= first_room { seq![] } else { block.subrange(first_room as int, block.len() as int) };
    let es: u8 = if end { FLAG_END_STREAM } else { 0 };
    if rest.len() == 0 {
        create_spec(ftype, es | FLAG_END_HEADERS, stream_id, None, Some(prefix + first), None)
    } else {
        create_spec(ftype, 0, stream_id, None, Some(prefix + first), None)
            + continuation_frames(stream_id, es | FLAG_END_HEADERS, fragments(rest, max))
    }
}

/// Every fragment of a header block holds at most `max` bytes.
pub proof fn lemma_fragments_fit(block: Seq<u8>, max: nat)
    requires
        max >= 1,
    ensures
        forall|i: int| 0 <= i < fragments(block, max).len() ==> (#[trigger] fragments(block, max)[i]).len() <= max,
    decreases block.len(),
{
    if block.len() > max {
        let rest = block.subrange(max as int, block.len() as int);
        lemma_fragments_fit(rest, max);
        let f = fragments(block, max);
        assert forall|i: int| 0 <= i < f.len() implies (#[trigger] f[i]).len() <= max by {
            if i > 0 {
                assert(f[i] == fragments(rest, max)[i - 1]);
            }
        }
    }
}

fn push_continuations(out: &mut Vec<u8>, stream_id: u32, last_flags: u8, block: &[u8], max: usize)
    requires
        1 <= max <= MAX_FRAME_LENGTH,
        block@.len() > 0,
    ensures
        final(out)@ == old(out)@ + continuation_frames(stream_id, last_flags, fragments(block@, max as nat)),
    decreases block@.len(),
{
    if block.len() <= max {
        let f = Http2Frame::create(Http2FrameType::Continuation, last_flags, stream_id, None, Some(block), None);
        out.extend_from_slice(f.as_slice());
        proof {
            let fr = fragments(block@, max as nat);
            assert(fr == seq![block@]);
            assert(fr.drop_first() =~= Seq::<Seq<u8>>::empty());
            assert(continuation_frames(stream_id, last_flags, fr.drop_first()) == Seq::<u8>::empty());
            assert(out@ =~= old(out)@ + continuation_frames(stream_id, last_flags, fr));
        }
    } else {
        let head = &block[0..max];
        let tail = &block[max..block.len()];
        let f = Http2Frame::create(Http2FrameType::Continuation, 0, stream_id, None, Some(head), None);
        out.extend_from_slice(f.as_slice());
        let ghost mid = out@;
        push_continuations(out, stream_id, last_flags, tail, max);
        proof {
            let fr = fragments(block@, max as nat);
            assert(fr.drop_first() =~= fragments(tail@, max as nat));
            assert(fragments(tail@, max as nat).len() >= 1);
            assert(fr.len() >= 2);
            assert(out@ =~= old(out)@ + continuation_frames(stream_id, last_flags, fr));
        }
    }
}

/// The frames that carry a header block, as `header_block_frames` says.
pub fn header_frames(ftype: Http2FrameType, stream_id: u32, end: bool, prefix: &[u8], block: &[u8], max: usize) -> (r: Vec<u8>)
    requires
        prefix@.len() < max <= MAX_FRAME_LENGTH,
    ensures
        r@ == header_block_frames(ftype, stream_id, end, prefix@, block@, max as nat),
{
    let room = max - prefix.len();
    let es: u8 = if end { FLAG_END_STREAM } else { 0 };
    let mut payload: Vec<u8> = Vec::new();
    payload.extend_from_slice(prefix);
    if block.len() <= room {
        payload.extend_from_slice(block);
        assert(payload@ =~= prefix@ + block@);
        Http2Frame::create(ftype, es | FLAG_END_HEADERS, stream_id, None, Some(payload.as_slice()), None)
    } else {
        let first = &block[0..room];
        payload.extend_from_slice(first);
        assert(payload@ =~= prefix@ + block@.subrange(0, room as int));
        let mut out = Http2Frame::create(ftype, 0, stream_id, None, Some(payload.as_slice()), None);
        let rest = &block[room..block.len()];
        push_continuations(&mut out, stream_id, es | FLAG_END_HEADERS, rest, max);
        out
    }
}

/// The state of one stream as the dispatcher keeps it.
#[derive(Debug)]
pub struct StreamData {
    pub stream_id: u32,
    /// Opened by the peer.
    pub new: bool,
    pub window: i64,
    pub reset: bool,
    pub end_head: bool,
    pub end_body: bool,
    pub self_end_head: bool,
    pub self_end_body: bool,
    pub body: Vec<u8>,
    pub head: Vec<u8>,
    pub headers: Vec<(Vec<u8>, Vec<u8>)>,
    pub associated: Option<u32>,
    pub promising: Option<u32>,
    pub promise: Vec<u8>,
    pub push_headers: Vec<(Vec<u8>, Vec<u8>)>,
}

impl StreamData {
    /// A stream with nothing received, its window the initial one of `settings`.
    pub fn empty(stream_id: u32, settings: &Http2Settings) -> (r: Self)
        ensures
            r.stream_id == stream_id,
            r.new,
            r.window == match settings.initial_window_size {
                Some(v) => v as i64,
                None => 65535,
            },
            !r.reset && !r.end_head && !r.end_body && !r.self_end_head && !r.self_end_body,
            r.body@.len() == 0 && r.head@.len() == 0 && r.headers@.len() == 0,
            r.associated is None && r.promising is None,
            r.promise@.len() == 0 && r.push_headers@.len() == 0,
    {
        StreamData {
            stream_id,
            new: true,
            window: match settings.initial_window_size {
                Some(v) => v as i64,
                None => 65535,
            },
            reset: false,
            end_head: false,
            end_body: false,
            self_end_head: false,
            self_end_body: false,
            body: Vec::new(),
            head: Vec::new(),
            headers: Vec::new(),
            associated: None,
            promising: None,
            promise: Vec::new(),
            push_headers: Vec::new(),
        }
    }
}

/// What handling one frame asks of the connection.
#[derive(Debug)]
pub struct Outcome {
    /// A stream the peer opened (or promised) whose head is complete.
    pub opened: Option<u32>,
    /// Bytes to send in answer.
    pub reply: Vec<u8>,
}

/// The decisions of an HTTP/2 session: its streams, windows and settings, and what
/// each received frame does to them.
pub struct SessionCore {
    pub mode: Mode,
    pub strict: bool,
    pub streams: Vec<StreamData>,
    pub window: i64,
    pub settings: Http2Settings,
    pub goaway: bool,
    pub goaway_payload: Option<Vec<u8>>,
    pub max_stream_id: u32,
    pub decoder: Decoder<'static>,
    /// Set after a connection error: every later frame gets `ProtocolError`.
    pub failed: bool,
}

/// Index of the stream with identifier `id`.
pub open spec fn stream_at(s: Seq<StreamData>, id: u32) -> Option<int> {
    if exists|i: int| 0 <= i < s.len() && (#[trigger] s[i]).stream_id == id {
        Some(choose|i: int| 0 <= i < s.len() && (#[trigger] s[i]).stream_id == id)
    } else {
        None
    }
}

pub open spec fn ids_unique(s: Seq<StreamData>) -> bool {
    forall|i: int, j: int| 0 <= i < j < s.len() ==> (#[trigger] s[i]).stream_id != (#[trigger] s[j]).stream_id
}

proof fn lemma_stream_at(s: Seq<StreamData>, id: u32, i: int)
    requires
        ids_unique(s),
        0 <= i < s.len(),
        s[i].stream_id == id,
    ensures
        stream_at(s, id) == Some(i),
{
    let j = choose|j: int| 0 <= j < s.len() && (#[trigger] s[j]).stream_id == id;
    if j != i {
        if j < i {
            assert(s[j].stream_id != s[i].stream_id);
        } else {
            assert(s[i].stream_id != s[j].stream_id);
        }
    }
}

fn find_stream(streams: &Vec<StreamData>, id: u32) -> (r: Option<usize>)
    requires
        ids_unique(streams@),
    ensures
        r matches Some(i) ==> stream_at(streams@, id) == Some(i as int) && i < streams@.len(),
        r is None ==> stream_at(streams@, id) is None,
{
    let mut i: usize = 0;
    while i < streams.len()
        invariant
            ids_unique(streams@),
            i <= streams@.len(),
            forall|k: int| 0 <= k < i ==> (#[trigger] streams@[k]).stream_id != id,
        decreases streams@.len() - i,
    {
        if streams[i].stream_id == id {
            proof {
                lemma_stream_at(streams@, id, i as int);
            }
            return Some(i);
        }
        i += 1;
    }
    None
}

/// The settings `update` sets, over `current`.
pub open spec fn merge_settings(current: Http2Settings, update: Http2Settings) -> Http2Settings {
    Http2Settings {
        header_table_size: if update.header_table_size is Some { update.header_table_size } else { current.header_table_size },
        enable_push: if update.enable_push is Some { update.enable_push } else { current.enable_push },
        max_concurrent_streams: if update.max_concurrent_streams is Some {
            update.max_concurrent_streams
        } else {
            current.max_concurrent_streams
        },
        initial_window_size: if update.initial_window_size is Some {
            update.initial_window_size
        } else {
            current.initial_window_size
        },
        max_frame_size: if update.max_frame_size is Some { update.max_frame_size } else { current.max_frame_size },
        max_header_list_size: if update.max_header_list_size is Some {
            update.max_header_list_size
        } else {
            current.max_header_list_size
        },
    }
}

/// Whether every identifier of a SETTINGS payload is one of the six known ones.
pub open spec fn settings_known(p: Seq<u8>) -> bool {
    forall|i: int| 0 <= i < p.len() / 6 ==> {
        let id = #[trigger] crate::settings::raw_setting(p, i).0;
        1 <= id <= 6
    }
}

/// What a HEADERS frame does: on a stream this side opened (a client's), the block
/// grows and, at END_HEADERS, decodes into its headers; on a new stream (a
/// server's), the stream is created and reported open once its head is complete.
pub open spec fn headers_outcome(old: SessionCore, new: SessionCore, frame: Http2Frame, r: Result<Outcome, LibError>) -> bool {
    match stream_at(old.streams@, frame.stream_id) {
        Some(i) => if old.mode == Mode::Server {
            r matches Err(LibError::ProtocolError) && new.failed
        } else {
            let block = old.streams@[i].head@ + frame.payload_view();
            &&& new.streams@.len() == old.streams@.len()
            &&& (has_flag(frame.flags, 1) ==> new.streams@[i].end_body)
            &&& (!has_flag(frame.flags, 4) ==> r is Ok && new.streams@[i].head@ == block)
            &&& (has_flag(frame.flags, 4) ==> match old.decoded(block) {
                Some(fs) => (r matches Ok(o) && o.opened is None) && new.streams@[i].end_head
                    && fields_view(new.streams@[i].headers@) == fields_view(old.streams@[i].headers@) + fs,
                None => (r matches Err(LibError::ProtocolError)) && new.failed,
            })
        },
        None => if old.mode == Mode::Client
            || (old.strict && !peer_allowed_spec(old.mode, frame.stream_id)) {
            r matches Err(LibError::ProtocolError) && new.failed
        } else if has_flag(frame.flags, 4) {
            match old.decoded(frame.payload_view()) {
                Some(fs) => (r matches Ok(o) && o.opened == Some(frame.stream_id))
                    && new.streams@.len() == old.streams@.len() + 1
                    && new.streams@.last().stream_id == frame.stream_id
                    && new.streams@.last().new && new.streams@.last().end_head
                    && new.streams@.last().end_body == has_flag(frame.flags, 1)
                    && fields_view(new.streams@.last().headers@) == fs,
                None => (r matches Err(LibError::ProtocolError)) && new.failed,
            }
        } else {
            (r matches Ok(o) && o.opened is None)
                && new.streams@.len() == old.streams@.len() + 1
                && new.streams@.last().stream_id == frame.stream_id
                && new.streams@.last().head@ == frame.payload_view()
                && !new.streams@.last().end_head
        },
    }
}

/// The promised stream carried by a PUSH_PROMISE payload (reserved bit cleared).
pub open spec fn promised_id(p: Seq<u8>) -> nat {
    (p[0] as nat % 128) * 16777216 + p[1] as nat * 65536 + p[2] as nat * 256 + p[3] as nat
}

/// What a PUSH_PROMISE frame does: only a client (or a session before negotiation)
/// takes one, on an existing stream, for a stream that does not exist yet, which is
/// then created and tied to the stream that promised it.
pub open spec fn push_promise_outcome(old: SessionCore, new: SessionCore, frame: Http2Frame, r: Result<Outcome, LibError>) -> bool {
    let p = frame.payload_view();
    if old.mode == Mode::Server || p.len() < 4 {
        r matches Err(LibError::ProtocolError) && new.failed
    } else if stream_at(old.streams@, promised_id(p) as u32) is Some || stream_at(old.streams@, frame.stream_id) is None {
        r matches Err(LibError::ProtocolError) && new.failed
    } else if has_flag(frame.flags, 4) {
        match old.decoded(p.subrange(4, p.len() as int)) {
            Some(fs) => (r matches Ok(o) && o.opened == Some(promised_id(p) as u32))
                && new.streams@.len() == old.streams@.len() + 1
                && new.streams@.last().stream_id == promised_id(p) as u32
                && new.streams@.last().associated == Some(frame.stream_id)
                && fields_view(new.streams@.last().push_headers@) == fs,
            None => (r matches Err(LibError::ProtocolError)) && new.failed,
        }
    } else {
        (r matches Ok(o) && o.opened is None)
            && new.streams@.len() == old.streams@.len() + 1
            && new.streams@.last().stream_id == promised_id(p) as u32
            && new.streams@.last().associated == Some(frame.stream_id)
            && new.streams@.last().promise@ == p.subrange(4, p.len() as int)
    }
}

/// The window increment of a WINDOW_UPDATE payload (reserved bit cleared).
pub open spec fn window_increment(p: Seq<u8>) -> nat {
    (p[0] as nat % 128) * 16777216 + p[1] as nat * 65536 + p[2] as nat * 256 + p[3] as nat
}

/// Handled, with no stream opened and nothing to answer.
pub open spec fn quiet(r: Result<Outcome, LibError>) -> bool {
    r matches Ok(o) && o.opened is None && o.reply@.len() == 0
}

/// `new` is `old` with only stream `i` changed.
pub open spec fn only_stream_changed(old: SessionCore, new: SessionCore, i: int) -> bool {
    &&& new == (SessionCore { streams: new.streams, ..old })
    &&& new.streams@.len() == old.streams@.len()
    &&& forall|k: int| 0 <= k < old.streams@.len() && k != i ==> #[trigger] new.streams@[k] == old.streams@[k]
}

/// What a DATA frame does: the payload joins the stream's body, END_STREAM ends it,
/// and two WINDOW_UPDATE frames (connection and stream) give the credit back; an
/// unknown stream is refused and nothing changes.
pub open spec fn data_outcome(old: SessionCore, new: SessionCore, frame: Http2Frame, r: Result<Outcome, LibError>) -> bool {
    match stream_at(old.streams@, frame.stream_id) {
        Some(i) => (r matches Ok(o) && o.opened is None
            && o.reply@ == create_spec(Http2FrameType::WindowUpdate, 0, 0, None, Some(be32(frame.length)), None)
                + create_spec(Http2FrameType::WindowUpdate, 0, frame.stream_id, None, Some(be32(frame.length)), None))
            && only_stream_changed(old, new, i)
            && new.streams@[i] == (StreamData {
                body: new.streams@[i].body,
                end_body: old.streams@[i].end_body || has_flag(frame.flags, 1),
                ..old.streams@[i]
            })
            && new.streams@[i].body@ == old.streams@[i].body@ + frame.payload_view(),
        None => r matches Err(LibError::InvalidStream) && new == old,
    }
}

/// What an RST_STREAM frame does: the stream is marked reset and nothing else
/// changes; an unknown stream is refused.
pub open spec fn rst_outcome(old: SessionCore, new: SessionCore, frame: Http2Frame, r: Result<Outcome, LibError>) -> bool {
    match stream_at(old.streams@, frame.stream_id) {
        Some(i) => quiet(r) && only_stream_changed(old, new, i)
            && new.streams@[i] == (StreamData { reset: true, ..old.streams@[i] }),
        None => r matches Err(LibError::InvalidStream) && new == old,
    }
}

/// What a WINDOW_UPDATE frame does: a payload of other than four bytes is a
/// connection error; on stream 0 it adds to the connection window, else to the
/// window of that stream (which must exist); a window passing 2^31 - 1 is a
/// connection error. Nothing else changes.
pub open spec fn window_update_outcome(old: SessionCore, new: SessionCore, frame: Http2Frame, r: Result<Outcome, LibError>) -> bool {
    let p = frame.payload_view();
    let inc = window_increment(p);
    if p.len() != 4 {
        r matches Err(LibError::ProtocolError) && new.failed
    } else if frame.stream_id == 0 {
        if old.window + inc > MAX_WINDOW {
            r matches Err(LibError::ProtocolError) && new.failed
        } else {
            quiet(r) && new == (SessionCore { window: (old.window + inc) as i64, ..old })
        }
    } else {
        match stream_at(old.streams@, frame.stream_id) {
            None => r matches Err(LibError::InvalidStream) && new == old,
            Some(i) => if old.streams@[i].window + inc > MAX_WINDOW {
                r matches Err(LibError::ProtocolError) && new.failed
            } else {
                &&& quiet(r)
                &&& only_stream_changed(old, new, i)
                &&& new.streams@[i].window == old.streams@[i].window + inc
                &&& new.streams@[i] == (StreamData { window: new.streams@[i].window, ..old.streams@[i] })
            },
        }
    }
}

/// What a SETTINGS frame does: the settings it carries replace those held; a
/// strict session refuses a payload that is malformed or names an unknown setting.
pub open spec fn settings_outcome(old: SessionCore, new: SessionCore, frame: Http2Frame, r: Result<Outcome, LibError>) -> bool {
    let p = frame.payload_view();
    if old.strict && !(p.len() % 6 == 0 && settings_known(p)) {
        r matches Err(LibError::ProtocolError) && new.failed
    } else {
        quiet(r) && new == (SessionCore { settings: merge_settings(old.settings, crate::settings::settings_of(p)), ..old })
    }
}

/// What a CONTINUATION frame does on a stream with no promise pending: its header
/// block grows, END_STREAM ends the body, and at END_HEADERS the block decodes into
/// the stream's headers, the stream being reported open when the peer opened it.
/// An unknown stream is refused.
pub open spec fn continuation_outcome(old: SessionCore, new: SessionCore, frame: Http2Frame, r: Result<Outcome, LibError>) -> bool {
    match stream_at(old.streams@, frame.stream_id) {
        None => r matches Err(LibError::InvalidStream),
        Some(i) => old.streams@[i].promising is None ==> {
            let block = old.streams@[i].head@ + frame.payload_view();
            &&& new.streams@.len() == old.streams@.len()
            &&& (has_flag(frame.flags, 1) ==> new.streams@[i].end_body)
            &&& (!has_flag(frame.flags, 4) ==> (r matches Ok(o) && o.opened is None) && new.streams@[i].head@ == block)
            &&& (has_flag(frame.flags, 4) ==> match old.decoded(block) {
                Some(fs) => (r matches Ok(o) && (o.opened == if old.streams@[i].new { Some(frame.stream_id) } else { None }))
                    && new.streams@[i].end_head
                    && fields_view(new.streams@[i].headers@) == fields_view(old.streams@[i].headers@) + fs,
                None => (r matches Err(LibError::ProtocolError)) && new.failed,
            })
        },
    }
}

impl SessionCore {
    pub open spec fn wf(&self) -> bool {
        &&& ids_unique(self.streams@)
        &&& self.decoder.wf()
        &&& self.window <= MAX_WINDOW
        &&& forall|i: int| 0 <= i < self.streams@.len() ==> (#[trigger] self.streams@[i]).window <= MAX_WINDOW
    }

    /// A session in `mode` with no streams, its windows and decoder sized by `settings`.
    pub fn new(mode: Mode, strict: bool, settings: Http2Settings) -> (r: Self)
        ensures
            r.wf(),
            r.mode == mode,
            r.strict == strict,
            r.streams@.len() == 0,
            r.settings == settings,
            !r.goaway && !r.failed,
            r.max_stream_id == 0,
    {
        let table = match settings.header_table_size {
            Some(v) => v as usize,
            None => 4096,
        };
        let window: i64 = match settings.initial_window_size {
            Some(v) => if (v as i64) <= MAX_WINDOW { v as i64 } else { MAX_WINDOW },
            None => 65535,
        };
        SessionCore {
            mode,
            strict,
            streams: Vec::new(),
            window,
            settings,
            goaway: false,
            goaway_payload: None,
            max_stream_id: 0,
            decoder: Decoder::new(table),
            failed: false,
        }
    }

    /// The fields a header block decodes to with the session's decoder as it stands.
    pub open spec fn decoded(&self, block: Seq<u8>) -> Option<Seq<Field>> {
        match decode_all_spec(self.decoder.static_table@, self.decoder.dynamic_table@,
            self.decoder.dynamic_table.table_size as nat, self.decoder.huffman, block, 0) {
            Some((fs, _, _)) => Some(fs),
            None => None,
        }
    }

    /// Decodes a finished header block; a block that does not decode is a
    /// connection error.
    fn decode_block(&mut self, block: &[u8]) -> (r: Result<Vec<(Vec<u8>, Vec<u8>)>, LibError>)
        requires
            old(self).wf(),
        ensures
            final(self).wf(),
            final(self).streams == old(self).streams,
            final(self).mode == old(self).mode,
            final(self).window == old(self).window,
            r is Err ==> final(self).failed && r matches Err(LibError::ProtocolError),
            r is Ok ==> final(self).failed == old(self).failed,
            r matches Ok(fs) ==> old(self).decoded(block@) == Some(fields_view(fs@)),
            r is Err ==> old(self).decoded(block@) is None,
    {
        match self.decoder.decode_all(block) {
            Some(fs) => Ok(fs),
            None => {
                self.failed = true;
                Err(LibError::ProtocolError)
            },
        }
    }

    /// Handles one received frame (RFC 7540 section 6): updates the streams, windows
    /// and settings, and says which stream the peer opened and what to answer.
    pub fn handle(&mut self, frame: &Http2Frame) -> (r: Result<Outcome, LibError>)
        requires
            old(self).wf(),
            frame.wf(),
        ensures
            final(self).wf(),
            final(self).mode == old(self).mode,
            old(self).failed ==> (r matches Err(LibError::ProtocolError) && final(self).failed),
            !old(self).failed && frame.ftype == Http2FrameType::Ping ==> (r matches Ok(o) && o.opened is None
                && *final(self) == *old(self)
                && (if has_flag(frame.flags, 1) { o.reply@.len() == 0 } else {
                    o.reply@ == create_spec(Http2FrameType::Ping, 1, 0, None, Some(frame.source@.subrange(frame.payload.start as int, frame.payload.end as int)), None)
                })),
            !old(self).failed && frame.ftype == Http2FrameType::Headers ==> headers_outcome(*old(self), *final(self), *frame, r),
            !old(self).failed && frame.ftype == Http2FrameType::PushPromise ==> push_promise_outcome(*old(self), *final(self), *frame, r),
            !old(self).failed && frame.ftype == Http2FrameType::Continuation ==> continuation_outcome(*old(self), *final(self), *frame, r),
            !old(self).failed && frame.ftype == Http2FrameType::Priority ==> quiet(r) && *final(self) == *old(self),
            !old(self).failed && frame.ftype == Http2FrameType::Goaway ==> quiet(r)
                && *final(self) == (SessionCore { goaway: true, goaway_payload: final(self).goaway_payload, ..*old(self) })
                && (final(self).goaway_payload matches Some(p) && p@ == frame.payload_view()),
            !old(self).failed && frame.ftype == Http2FrameType::RstStream ==> rst_outcome(*old(self), *final(self), *frame, r),
            !old(self).failed && frame.ftype == Http2FrameType::Data ==> data_outcome(*old(self), *final(self), *frame, r),
            !old(self).failed && frame.ftype == Http2FrameType::Settings ==> settings_outcome(*old(self), *final(self), *frame, r),
            !old(self).failed && (frame.ftype matches Http2FrameType::Invalid(_)) ==>
                (old(self).strict ==> (r matches Err(LibError::ProtocolError)) && final(self).failed)
                && (!old(self).strict ==> quiet(r) && *final(self) == *old(self)),
            !old(self).failed && frame.ftype == Http2FrameType::WindowUpdate ==> window_update_outcome(*old(self), *final(self), *frame, r),
    {
        if self.failed {
            return Err(LibError::ProtocolError);
        }
        match frame.ftype {
            Http2FrameType::Data => self.handle_data(frame),
            Http2FrameType::Headers => self.handle_headers(frame),
            Http2FrameType::Priority => Ok(Outcome { opened: None, reply: Vec::new() }),
            Http2FrameType::RstStream => self.handle_rst(frame),
            Http2FrameType::Settings => self.handle_settings(frame),
            Http2FrameType::PushPromise => self.handle_push_promise(frame),
            Http2FrameType::Ping => {
                if frame.is_ack() {
                    Ok(Outcome { opened: None, reply: Vec::new() })
                } else {
                    Ok(Outcome { opened: None, reply: ping_frame(true, frame.get_payload()) })
                }
            },
            Http2FrameType::Goaway => {
                self.goaway = true;
                let payload = frame.get_payload();
                let mut p: Vec<u8> = Vec::new();
                p.extend_from_slice(payload);
                assert(p@ =~= payload@);
                self.goaway_payload = Some(p);
                Ok(Outcome { opened: None, reply: Vec::new() })
            },
            Http2FrameType::WindowUpdate => self.handle_window_update(frame),
            Http2FrameType::Continuation => self.handle_continuation(frame),
            Http2FrameType::Invalid(_) => {
                if self.strict {
                    self.failed = true;
                    Err(LibError::ProtocolError)
                } else {
                    Ok(Outcome { opened: None, reply: Vec::new() })
                }
            },
        }
    }

    fn handle_data(&mut self, frame: &Http2Frame) -> (r: Result<Outcome, LibError>)
        requires
            old(self).wf(),
            frame.wf(),
        ensures
            final(self).wf(),
            final(self).mode == old(self).mode,
            data_outcome(*old(self), *final(self), *frame, r),
    {
        let payload = frame.get_payload();
        match find_stream(&self.streams, frame.stream_id) {
            Some(i) => {
                let mut s = self.streams.remove(i);
                s.body.extend_from_slice(payload);
                assert(s.body@ =~= old(self).streams@[i as int].body@ + frame.payload_view());
                if frame.is_end_stream() {
                    s.end_body = true;
                }
                self.streams.insert(i, s);
                proof {
                    self.lemma_insert_keeps(old(self).streams@, i as int);
                }
                let mut reply = window_update_frame(0, frame.length);
                let w2 = window_update_frame(frame.stream_id, frame.length);
                let ghost w1 = reply@;
                reply.extend_from_slice(w2.as_slice());
                proof {
                    assert(reply@ =~= w1 + w2@);
                    assert(self.streams@[i as int].body@ == old(self).streams@[i as int].body@ + frame.payload_view());
                    assert(only_stream_changed(*old(self), *self, i as int));
                    assert(self.streams@[i as int] == (StreamData {
                        body: self.streams@[i as int].body,
                        end_body: old(self).streams@[i as int].end_body || has_flag(frame.flags, 1),
                        ..old(self).streams@[i as int]
                    }));
                }
                Ok(Outcome { opened: None, reply })
            },
            None => Err(LibError::InvalidStream),
        }
    }

    fn handle_rst(&mut self, frame: &Http2Frame) -> (r: Result<Outcome, LibError>)
        requires
            old(self).wf(),
        ensures
            final(self).wf(),
            final(self).mode == old(self).mode,
            rst_outcome(*old(self), *final(self), *frame, r),
    {
        match find_stream(&self.streams, frame.stream_id) {
            Some(i) => {
                let mut s = self.streams.remove(i);
                s.reset = true;
                self.streams.insert(i, s);
                proof {
                    self.lemma_insert_keeps(old(self).streams@, i as int);
                }
                Ok(Outcome { opened: None, reply: Vec::new() })
            },
            None => Err(LibError::InvalidStream),
        }
    }

    fn handle_settings(&mut self, frame: &Http2Frame) -> (r: Result<Outcome, LibError>)
        requires
            old(self).wf(),
            frame.wf(),
        ensures
            final(self).wf(),
            final(self).mode == old(self).mode,
            settings_outcome(*old(self), *final(self), *frame, r),
    {
        let payload = frame.get_payload();
        let update = Http2Settings::from(payload);
        if self.strict && !settings_all_known(payload) {
            self.failed = true;
            return Err(LibError::ProtocolError);
        }
        if let Some(v) = update.header_table_size {
            self.settings.header_table_size = Some(v);
        }
        if let Some(v) = update.enable_push {
            self.settings.enable_push = Some(v);
        }
        if let Some(v) = update.max_concurrent_streams {
            self.settings.max_concurrent_streams = Some(v);
        }
        if let Some(v) = update.initial_window_size {
            self.settings.initial_window_size = Some(v);
        }
        if let Some(v) = update.max_frame_size {
            self.settings.max_frame_size = Some(v);
        }
        if let Some(v) = update.max_header_list_size {
            self.settings.max_header_list_size = Some(v);
        }
        Ok(Outcome { opened: None, reply: Vec::new() })
    }

    fn handle_window_update(&mut self, frame: &Http2Frame) -> (r: Result<Outcome, LibError>)
        requires
            old(self).wf(),
            frame.wf(),
        ensures
            final(self).wf(),
            final(self).mode == old(self).mode,
            window_update_outcome(*old(self), *final(self), *frame, r),
    {
        let payload = frame.get_payload();
        if payload.len() != 4 {
            self.failed = true;
            return Err(LibError::ProtocolError);
        }
        let inc: u32 = (payload[0] % 128) as u32 * 16777216 + payload[1] as u32 * 65536 + payload[2] as u32 * 256 + payload[3] as u32;
        if frame.stream_id == 0 {
            if self.window as i128 + inc as i128 > MAX_WINDOW as i128 {
                self.failed = true;
                return Err(LibError::ProtocolError);
            }
            self.window = self.window + inc as i64;
            Ok(Outcome { opened: None, reply: Vec::new() })
        } else {
            match find_stream(&self.streams, frame.stream_id) {
                Some(i) => {
                    if self.streams[i].window as i128 + inc as i128 > MAX_WINDOW as i128 {
                        self.failed = true;
                        return Err(LibError::ProtocolError);
                    }
                    let mut s = self.streams.remove(i);
                    s.window = s.window + inc as i64;
                    self.streams.insert(i, s);
                    proof {
                        self.lemma_insert_keeps(old(self).streams@, i as int);
                    }
                    Ok(Outcome { opened: None, reply: Vec::new() })
                },
                None => Err(LibError::InvalidStream),
            }
        }
    }

    /// Putting back a stream with the same identifier keeps identifiers unique.
    proof fn lemma_insert_keeps(&self, before: Seq<StreamData>, i: int)
        requires
            ids_unique(before),
            0 <= i < before.len(),
            self.streams@.len() == before.len(),
            self.streams@[i].stream_id == before[i].stream_id,
            forall|k: int| 0 <= k < before.len() && k != i ==> #[trigger] self.streams@[k] == before[k],
        ensures
            ids_unique(self.streams@),
    {
        assert forall|a: int, b: int| 0 <= a < b < self.streams@.len() implies (#[trigger] self.streams@[a]).stream_id != (#[trigger] self.streams@[b]).stream_id by {
            assert(before[a].stream_id != before[b].stream_id);
        }
    }

    fn handle_headers(&mut self, frame: &Http2Frame) -> (r: Result<Outcome, LibError>)
        requires
            old(self).wf(),
            frame.wf(),
        ensures
            final(self).wf(),
            final(self).mode == old(self).mode,
            headers_outcome(*old(self), *final(self), *frame, r),
    {
        let payload = frame.get_payload();
        match find_stream(&self.streams, frame.stream_id) {
            Some(i) => {
                if let Mode::Server = self.mode {
                    self.failed = true;
                    return Err(LibError::ProtocolError);
                }
                let mut s = self.streams.remove(i);
                s.head.extend_from_slice(payload);
                assert(s.head@ =~= old(self).streams@[i as int].head@ + frame.payload_view());
                let mut result = Ok(Outcome { opened: None, reply: Vec::new() });
                if frame.is_end_headers() {
                    match self.decode_block(s.head.as_slice()) {
                        Ok(mut fs) => {
                            let ghost hv = s.headers@;
                            let ghost fv = fs@;
                            s.headers.append(&mut fs);
                            assert(fields_view(s.headers@) =~= fields_view(hv) + fields_view(fv));
                            s.end_head = true;
                            s.head = Vec::new();
                        },
                        Err(e) => {
                            result = Err(e);
                        },
                    }
                }
                if frame.is_end_stream() {
                    s.end_body = true;
                }
                self.streams.insert(i, s);
                proof {
                    self.lemma_insert_keeps(old(self).streams@, i as int);
                }
                result
            },
            None => {
                if let Mode::Client = self.mode {
                    self.failed = true;
                    return Err(LibError::ProtocolError);
                }
                if self.strict && !peer_stream_allowed(self.mode, frame.stream_id) {
                    self.failed = true;
                    return Err(LibError::ProtocolError);
                }
                let mut s = StreamData::empty(frame.stream_id, &self.settings);
                if s.window > MAX_WINDOW {
                    s.window = MAX_WINDOW;
                }
                s.head.extend_from_slice(payload);
                assert(s.head@ =~= frame.payload_view());
                if frame.is_end_stream() {
                    s.end_body = true;
                }
                let mut opened = None;
                if frame.is_end_headers() {
                    match self.decode_block(s.head.as_slice()) {
                        Ok(mut fs) => {
                            let ghost fv = fs@;
                            s.headers.append(&mut fs);
                            assert(s.headers@ =~= fv);
                            s.end_head = true;
                            s.head = Vec::new();
                            opened = Some(frame.stream_id);
                        },
                        Err(e) => {
                            return Err(e);
                        },
                    }
                }
                if frame.stream_id > self.max_stream_id {
                    self.max_stream_id = frame.stream_id;
                }
                self.streams.push(s);
                proof {
                    assert forall|a: int, b: int| 0 <= a < b < self.streams@.len() implies (#[trigger] self.streams@[a]).stream_id != (#[trigger] self.streams@[b]).stream_id by {
                        if b == self.streams@.len() - 1 {
                            assert(old(self).streams@[a] == self.streams@[a]);
                        } else {
                            assert(old(self).streams@[a].stream_id != old(self).streams@[b].stream_id);
                        }
                    }
                }
                Ok(Outcome { opened, reply: Vec::new() })
            },
        }
    }

    fn handle_push_promise(&mut self, frame: &Http2Frame) -> (r: Result<Outcome, LibError>)
        requires
            old(self).wf(),
            frame.wf(),
        ensures
            final(self).wf(),
            final(self).mode == old(self).mode,
            push_promise_outcome(*old(self), *final(self), *frame, r),
    {
        let payload = frame.get_payload();
        if let Mode::Server = self.mode {
            self.failed = true;
            return Err(LibError::ProtocolError);
        }
        if payload.len() < 4 {
            self.failed = true;
            return Err(LibError::ProtocolError);
        }
        let promised: u32 = (payload[0] % 128) as u32 * 16777216 + payload[1] as u32 * 65536 + payload[2] as u32 * 256
            + payload[3] as u32;
        if find_stream(&self.streams, promised).is_some() {
            self.failed = true;
            return Err(LibError::ProtocolError);
        }
        let origin = match find_stream(&self.streams, frame.stream_id) {
            Some(i) => i,
            None => {
                self.failed = true;
                return Err(LibError::ProtocolError);
            },
        };
        let mut s = StreamData::empty(promised, &self.settings);
        if s.window > MAX_WINDOW {
            s.window = MAX_WINDOW;
        }
        s.associated = Some(frame.stream_id);
        s.promise.extend_from_slice(&payload[4..payload.len()]);
        assert(s.promise@ =~= frame.payload_view().subrange(4, frame.payload_view().len() as int));
        let mut opened = None;
        if frame.is_end_headers() {
            match self.decode_block(s.promise.as_slice()) {
                Ok(mut fs) => {
                    let ghost fv = fs@;
                    s.push_headers.append(&mut fs);
                    assert(s.push_headers@ =~= fv);
                    s.promise = Vec::new();
                    opened = Some(promised);
                },
                Err(e) => {
                    return Err(e);
                },
            }
        } else {
            let mut o = self.streams.remove(origin);
            o.promising = Some(promised);
            self.streams.insert(origin, o);
            proof {
                self.lemma_insert_keeps(old(self).streams@, origin as int);
            }
        }
        if frame.is_end_stream() {
            s.end_body = true;
        }
        let ghost before = self.streams@;
        self.streams.push(s);
        proof {
            assert forall|a: int, b: int| 0 <= a < b < self.streams@.len() implies (#[trigger] self.streams@[a]).stream_id != (#[trigger] self.streams@[b]).stream_id by {
                if b == self.streams@.len() - 1 {
                    assert(before[a] == self.streams@[a]);
                    assert(before[a].stream_id == old(self).streams@[a].stream_id);
                } else {
                    assert(before[a].stream_id != before[b].stream_id);
                }
            }
        }
        Ok(Outcome { opened, reply: Vec::new() })
    }

    #[verifier::rlimit(80)]
    fn handle_continuation(&mut self, frame: &Http2Frame) -> (r: Result<Outcome, LibError>)
        requires
            old(self).wf(),
            frame.wf(),
        ensures
            final(self).wf(),
            final(self).mode == old(self).mode,
            continuation_outcome(*old(self), *final(self), *frame, r),
    {
        let payload = frame.get_payload();
        let i = match find_stream(&self.streams, frame.stream_id) {
            Some(i) => i,
            None => {
                return Err(LibError::InvalidStream);
            },
        };
        let promising = self.streams[i].promising;
        if let Some(p) = promising {
            if let Some(j) = find_stream(&self.streams, p) {
                let mut ps = self.streams.remove(j);
                ps.promise.extend_from_slice(payload);
                let mut result = Ok(Outcome { opened: None, reply: Vec::new() });
                let end = frame.is_end_headers();
                if end {
                    match self.decode_block(ps.promise.as_slice()) {
                        Ok(mut fs) => {
                            ps.push_headers.append(&mut fs);
                            ps.promise = Vec::new();
                            result = Ok(Outcome { opened: Some(p), reply: Vec::new() });
                        },
                        Err(e) => {
                            result = Err(e);
                        },
                    }
                }
                self.streams.insert(j, ps);
                proof {
                    self.lemma_insert_keeps(old(self).streams@, j as int);
                }
                if end {
                    let ghost mid = self.streams@;
                    let mut o = self.streams.remove(i);
                    o.promising = None;
                    self.streams.insert(i, o);
                    proof {
                        self.lemma_insert_keeps(mid, i as int);
                    }
                }
                return result;
            }
        }
        let mut s = self.streams.remove(i);
        s.head.extend_from_slice(payload);
        assert(s.head@ =~= old(self).streams@[i as int].head@ + frame.payload_view());
        if frame.is_end_stream() {
            s.end_body = true;
        }
        let mut result = Ok(Outcome { opened: None, reply: Vec::new() });
        if frame.is_end_headers() {
            match self.decode_block(s.head.as_slice()) {
                Ok(mut fs) => {
                    let ghost hv = s.headers@;
                    let ghost fv = fs@;
                    s.headers.append(&mut fs);
                    assert(fields_view(s.headers@) =~= fields_view(hv) + fields_view(fv));
                    s.end_head = true;
                    s.head = Vec::new();
                    if s.new {
                        result = Ok(Outcome { opened: Some(frame.stream_id), reply: Vec::new() });
                    }
                },
                Err(e) => {
                    result = Err(e);
                },
            }
        }
        self.streams.insert(i, s);
        proof {
            self.lemma_insert_keeps(old(self).streams@, i as int);
        }
        result
    }
}


impl SessionCore {
    /// Opens the sending of a header block on `stream_id`: a client creates the
    /// stream (not opened by the peer), a server needs it to exist; a stream whose
    /// head or body this side already ended is closed. Latches `self_end_head`, and
    /// `self_end_body` when `end`.
    pub fn begin_send_headers(&mut self, stream_id: u32, end: bool) -> (r: Result<(), LibError>)
        requires
            old(self).wf(),
        ensures
            final(self).wf(),
            final(self).mode == old(self).mode,
            final(self).window == old(self).window,
            match stream_at(old(self).streams@, stream_id) {
                Some(i) => if old(self).mode == Mode::Client {
                    r matches Err(LibError::InvalidStream)
                } else if old(self).streams@[i].self_end_head || old(self).streams@[i].self_end_body {
                    r matches Err(LibError::StreamClosed)
                } else {
                    r is Ok && final(self).streams@[i].self_end_head && final(self).streams@[i].self_end_body == end
                },
                None => if old(self).mode == Mode::Server {
                    r matches Err(LibError::InvalidStream)
                } else {
                    r is Ok && (stream_at(final(self).streams@, stream_id) matches Some(j)
                        && final(self).streams@[j].self_end_head && final(self).streams@[j].self_end_body == end
                        && !final(self).streams@[j].new)
                },
            },
    {
        match find_stream(&self.streams, stream_id) {
            Some(i) => {
                if let Mode::Client = self.mode {
                    return Err(LibError::InvalidStream);
                }
                if self.streams[i].self_end_head || self.streams[i].self_end_body {
                    return Err(LibError::StreamClosed);
                }
                let mut s = self.streams.remove(i);
                s.self_end_head = true;
                s.self_end_body = end;
                self.streams.insert(i, s);
                proof {
                    self.lemma_insert_keeps(old(self).streams@, i as int);
                }
                Ok(())
            },
            None => {
                if let Mode::Server = self.mode {
                    return Err(LibError::InvalidStream);
                }
                let mut s = StreamData::empty(stream_id, &self.settings);
                if s.window > MAX_WINDOW {
                    s.window = MAX_WINDOW;
                }
                s.new = false;
                s.self_end_head = true;
                s.self_end_body = end;
                if stream_id > self.max_stream_id {
                    self.max_stream_id = stream_id;
                }
                self.streams.push(s);
                proof {
                    let n = self.streams@.len() - 1;
                    assert forall|a: int, b: int| 0 <= a < b < self.streams@.len() implies (#[trigger] self.streams@[a]).stream_id != (#[trigger] self.streams@[b]).stream_id by {
                        if b == n {
                            assert(old(self).streams@[a] == self.streams@[a]);
                        } else {
                            assert(old(self).streams@[a].stream_id != old(self).streams@[b].stream_id);
                        }
                    }
                    lemma_stream_at(self.streams@, stream_id, n);
                }
                Ok(())
            },
        }
    }

    /// Opens the sending of DATA on `stream_id`: refused when this side ended the
    /// body or the stream was reset; latches `self_end_body` when `end`.
    pub fn begin_send_data(&mut self, stream_id: u32, end: bool) -> (r: Result<(), LibError>)
        requires
            old(self).wf(),
        ensures
            final(self).wf(),
            final(self).mode == old(self).mode,
            final(self).window == old(self).window,
            r is Err ==> *final(self) == *old(self),
            match stream_at(old(self).streams@, stream_id) {
                Some(i) => if old(self).streams@[i].self_end_body || old(self).streams@[i].reset {
                    r matches Err(LibError::StreamClosed)
                } else {
                    &&& r is Ok
                    &&& final(self).streams@.len() == old(self).streams@.len()
                    &&& final(self).streams@[i] == (StreamData { self_end_body: end, ..old(self).streams@[i] })
                    &&& forall|k: int| 0 <= k < old(self).streams@.len() && k != i ==> #[trigger] final(self).streams@[k] == old(self).streams@[k]
                },
                None => r matches Err(LibError::InvalidStream),
            },
    {
        match find_stream(&self.streams, stream_id) {
            Some(i) => {
                if self.streams[i].self_end_body || self.streams[i].reset {
                    return Err(LibError::StreamClosed);
                }
                let mut s = self.streams.remove(i);
                s.self_end_body = end;
                self.streams.insert(i, s);
                proof {
                    self.lemma_insert_keeps(old(self).streams@, i as int);
                }
                Ok(())
            },
            None => Err(LibError::InvalidStream),
        }
    }

    /// The next run of `len` bytes of DATA, from `pos`, that both windows allow:
    /// the credit `take_credit` gives is debited from the connection window and the
    /// stream's window at once, and the run is `pos..pos + n`. A reset stream gives
    /// `ResetStream`, an unknown one `InvalidStream`; nothing changes then.
    pub fn next_data_range(&mut self, stream_id: u32, pos: usize, len: usize) -> (r: Result<(usize, usize), LibError>)
        requires
            old(self).wf(),
            pos <= len,
        ensures
            final(self).wf(),
            r is Err ==> *final(self) == *old(self),
            match stream_at(old(self).streams@, stream_id) {
                None => r matches Err(LibError::InvalidStream),
                Some(i) => if old(self).streams@[i].reset {
                    r matches Err(LibError::ResetStream)
                } else {
                    let n = crate::session::credit_spec((len - pos) as nat, old(self).window as int, old(self).streams@[i].window as int);
                    &&& r == Ok::<(usize, usize), LibError>((pos, (pos + n) as usize))
                    &&& final(self).window == old(self).window - n
                    &&& final(self).streams@.len() == old(self).streams@.len()
                    &&& final(self).streams@[i] == (StreamData { window: (old(self).streams@[i].window - n) as i64, ..old(self).streams@[i] })
                    &&& forall|k: int| 0 <= k < old(self).streams@.len() && k != i ==> #[trigger] final(self).streams@[k] == old(self).streams@[k]
                    &&& (old(self).window >= 0 ==> final(self).window >= 0)
                    &&& (old(self).streams@[i].window >= 0 ==> final(self).streams@[i].window >= 0)
                },
            },
    {
        match find_stream(&self.streams, stream_id) {
            Some(i) => {
                if self.streams[i].reset {
                    return Err(LibError::ResetStream);
                }
                let mut s = self.streams.remove(i);
                let mut conn = self.window;
                let mut sw = s.window;
                let n = crate::session::take_credit(len - pos, &mut conn, &mut sw);
                self.window = conn;
                s.window = sw;
                self.streams.insert(i, s);
                proof {
                    self.lemma_insert_keeps(old(self).streams@, i as int);
                }
                Ok((pos, pos + n))
            },
            None => Err(LibError::InvalidStream),
        }
    }

    /// Registers a promised stream for PUSH_PROMISE: only a server (or a session
    /// before negotiation) promises, on an existing stream, a stream that does not
    /// exist yet.
    pub fn begin_push_promise(&mut self, origin: u32, promised: u32) -> (r: Result<(), LibError>)
        requires
            old(self).wf(),
        ensures
            final(self).wf(),
            final(self).mode == old(self).mode,
            old(self).mode == Mode::Client ==> r matches Err(LibError::ProtocolError),
            old(self).mode != Mode::Client && (stream_at(old(self).streams@, promised) is Some || stream_at(old(self).streams@, origin) is None)
                ==> r matches Err(LibError::InvalidStream),
            old(self).mode != Mode::Client && stream_at(old(self).streams@, promised) is None && stream_at(old(self).streams@, origin) is Some
                ==> r is Ok && (stream_at(final(self).streams@, promised) matches Some(j) && final(self).streams@[j].associated == Some(origin)),
    {
        if let Mode::Client = self.mode {
            return Err(LibError::ProtocolError);
        }
        if find_stream(&self.streams, promised).is_some() || find_stream(&self.streams, origin).is_none() {
            return Err(LibError::InvalidStream);
        }
        let mut s = StreamData::empty(promised, &self.settings);
        if s.window > MAX_WINDOW {
            s.window = MAX_WINDOW;
        }
        s.new = false;
        s.associated = Some(origin);
        self.streams.push(s);
        proof {
            let n = self.streams@.len() - 1;
            assert forall|a: int, b: int| 0 <= a < b < self.streams@.len() implies (#[trigger] self.streams@[a]).stream_id != (#[trigger] self.streams@[b]).stream_id by {
                if b == n {
                    assert(old(self).streams@[a] == self.streams@[a]);
                } else {
                    assert(old(self).streams@[a].stream_id != old(self).streams@[b].stream_id);
                }
            }
            lemma_stream_at(self.streams@, promised, n);
        }
        Ok(())
    }
}
/// Whether every identifier of a SETTINGS payload is a known one.
fn settings_all_known(p: &[u8]) -> (r: bool)
    ensures
        r <==> p@.len() % 6 == 0 && settings_known(p@),
{
    match Http2Settings::from_raw(p) {
        None => false,
        Some(v) => {
            let mut i: usize = 0;
            while i < v.len()
                invariant
                    i <= v@.len(),
                    v@.len() == p@.len() / 6,
                    forall|k: int| 0 <= k < v@.len() ==> #[trigger] v@[k] == crate::settings::raw_setting(p@, k),
                    forall|k: int| 0 <= k < i ==> 1 <= (#[trigger] crate::settings::raw_setting(p@, k)).0 <= 6,
                decreases v@.len() - i,
            {
                let id = v[i].0;
                if id < 1 || id > 6 {
                    proof {
                        assert(crate::settings::raw_setting(p@, i as int).0 == id);
                    }
                    return false;
                }
                i += 1;
            }
            true
        },
    }
}

} // verus!
