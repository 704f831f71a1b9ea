use vstd::prelude::*;
use std::ops::Range;

verus! {

/// Largest payload length a frame header can carry.
pub const MAX_FRAME_LENGTH: usize = 16777215;

pub const FLAG_END_STREAM: u8 = 0x01;
pub const FLAG_END_HEADERS: u8 = 0x04;
pub const FLAG_PADDED: u8 = 0x08;
pub const FLAG_PRIORITY: u8 = 0x20;

#[derive(Debug, Clone, Copy, PartialEq, Eq, Structural)]
pub enum Http2FrameType {
    Data,
    Headers,
    Priority,
    RstStream,
    Settings,
    PushPromise,
    Ping,
    Goaway,
    WindowUpdate,
    Continuation,
    Invalid(u8),
}

pub open spec fn frame_type_of(value: u8) -> Http2FrameType {
    if value == 0 {
        Http2FrameType::Data
    } else if value == 1 {
        Http2FrameType::Headers
    } else if value == 2 {
        Http2FrameType::Priority
    } else if value == 3 {
        Http2FrameType::RstStream
    } else if value == 4 {
        Http2FrameType::Settings
    } else if value == 5 {
        Http2FrameType::PushPromise
    } else if value == 6 {
        Http2FrameType::Ping
    } else if value == 7 {
        Http2FrameType::Goaway
    } else if value == 8 {
        Http2FrameType::WindowUpdate
    } else if value == 9 {
        Http2FrameType::Continuation
    } else {
        Http2FrameType::Invalid(value)
    }
}

pub open spec fn frame_type_byte(t: Http2FrameType) -> u8 {
    match t {
        Http2FrameType::Data => 0,
        Http2FrameType::Headers => 1,
        Http2FrameType::Priority => 2,
        Http2FrameType::RstStream => 3,
        Http2FrameType::Settings => 4,
        Http2FrameType::PushPromise => 5,
        Http2FrameType::Ping => 6,
        Http2FrameType::Goaway => 7,
        Http2FrameType::WindowUpdate => 8,
        Http2FrameType::Continuation => 9,
        Http2FrameType::Invalid(v) => v,
    }
}

impl Http2FrameType {
    /// The frame type with the given code (RFC 7540 section 6).
    pub fn from_u8(value: u8) -> (r: Self)
        ensures
            r == frame_type_of(value),
    {
        match value {
            0 => Http2FrameType::Data,
            1 => Http2FrameType::Headers,
            2 => Http2FrameType::Priority,
            3 => Http2FrameType::RstStream,
            4 => Http2FrameType::Settings,
            5 => Http2FrameType::PushPromise,
            6 => Http2FrameType::Ping,
            7 => Http2FrameType::Goaway,
            8 => Http2FrameType::WindowUpdate,
            9 => Http2FrameType::Continuation,
            v => Http2FrameType::Invalid(v),
        }
    }

    /// The code of the frame type.
    pub fn as_u8(self) -> (r: u8)
        ensures
            r == frame_type_byte(self),
    {
        match self {
            Http2FrameType::Data => 0,
            Http2FrameType::Headers => 1,
            Http2FrameType::Priority => 2,
            Http2FrameType::RstStream => 3,
            Http2FrameType::Settings => 4,
            Http2FrameType::PushPromise => 5,
            Http2FrameType::Ping => 6,
            Http2FrameType::Goaway => 7,
            Http2FrameType::WindowUpdate => 8,
            Http2FrameType::Continuation => 9,
            Http2FrameType::Invalid(v) => v,
        }
    }
}

/// Whether bit `bit_value` (a power of two) is set in `flags`.
pub open spec fn has_flag(flags: u8, bit_value: nat) -> bool {
    (flags as nat / bit_value) % 2 == 1
}

/// Payload length of the frame header at the start of `s`.
pub open spec fn header_length(s: Seq<u8>) -> nat {
    s[0] as nat * 65536 + s[1] as nat * 256 + s[2] as nat
}

/// Stream identifier of the frame header at the start of `s`, reserved bit cleared.
pub open spec fn header_stream_id(s: Seq<u8>) -> nat {
    (s[5] as nat % 128) * 16777216 + s[6] as nat * 65536 + s[7] as nat * 256 + s[8] as nat
}

/// Length of the pad-length field and of the padding.
pub open spec fn header_pad(s: Seq<u8>) -> nat {
    if has_flag(s[4], 8) { s[9] as nat } else { 0 }
}

/// Start of the priority block: after the pad-length field when there is one.
pub open spec fn priority_start(s: Seq<u8>) -> nat {
    if has_flag(s[4], 8) { 10 } else { 9 }
}

/// Start of the payload: after the priority block when there is one.
pub open spec fn payload_start(s: Seq<u8>) -> nat {
    priority_start(s) + if has_flag(s[4], 32) { 5nat } else { 0nat }
}

/// End of the payload, where the padding starts.
pub open spec fn payload_end(s: Seq<u8>) -> int {
    9 + header_length(s) - header_pad(s)
}

/// Whether `s` starts with a whole frame whose optional fields fit in its length.
pub open spec fn frame_ok(s: Seq<u8>) -> bool {
    &&& s.len() >= 9
    &&& s.len() >= 9 + header_length(s)
    &&& (has_flag(s[4], 8) ==> header_length(s) >= 1)
    &&& payload_start(s) <= payload_end(s)
}

#[derive(Debug)]
pub struct Http2Frame {
    pub source: Vec<u8>,
    pub length: u32,
    pub type_byte: u8,
    pub flags: u8,
    pub stream_id: u32,
    pub pad_len: u8,
    pub priority: Range<usize>,
    pub payload: Range<usize>,
    pub padding: Range<usize>,
    pub ftype: Http2FrameType,
}

impl Http2Frame {
    /// The fields are those of the frame at the start of `source`.
    pub open spec fn wf(&self) -> bool {
        let s = self.source@;
        &&& frame_ok(s)
        &&& self.length as nat == header_length(s)
        &&& self.type_byte == s[3]
        &&& self.flags == s[4]
        &&& self.stream_id as nat == header_stream_id(s)
        &&& self.pad_len as nat == header_pad(s)
        &&& self.ftype == frame_type_of(s[3])
        &&& self.priority == (priority_start(s) as usize..payload_start(s) as usize)
        &&& self.payload == (payload_start(s) as usize..payload_end(s) as usize)
        &&& self.padding == (payload_end(s) as usize..(9 + header_length(s)) as usize)
    }

    /// The payload bytes of the frame.
    pub open spec fn payload_view(&self) -> Seq<u8> {
        self.source@.subrange(self.payload.start as int, self.payload.end as int)
    }

    /// Parses the frame at the start of `source` (RFC 7540 section 4.1): the 9-byte
    /// header, then the pad length when PADDED, the priority block when PRIORITY, the
    /// payload and the padding. `None` when the bytes do not hold such a frame.
    pub fn from_owned(source: Vec<u8>) -> (r: Option<Self>)
        ensures
            r.is_some() == frame_ok(source@),
            r matches Some(f) ==> f.wf() && f.source@ == source@,
    {
        if source.len() < 9 {
            return None;
        }
        let length: u32 = source[0] as u32 * 65536 + source[1] as u32 * 256 + source[2] as u32;
        let type_byte = source[3];
        let flags = source[4];
        let stream_id: u32 = (source[5] % 128) as u32 * 16777216 + source[6] as u32 * 65536 + source[7] as u32 * 256
            + source[8] as u32;
        let end: usize = 9 + length as usize;
        if source.len() < end {
            return None;
        }
        let padded = (flags / 8) % 2 == 1;
        let prioritized = (flags / 32) % 2 == 1;
        let mut pad_len: u8 = 0;
        let mut start: usize = 9;
        if padded {
            if length < 1 {
                return None;
            }
            pad_len = source[9];
            start = 10;
        }
        let prio_start = start;
        if prioritized {
            start = start + 5;
        }
        if end < start + pad_len as usize {
            return None;
        }
        let pay_end = end - pad_len as usize;
        Some(Http2Frame {
            source,
            length,
            type_byte,
            flags,
            stream_id,
            pad_len,
            priority: prio_start..start,
            payload: start..pay_end,
            padding: pay_end..end,
            ftype: Http2FrameType::from_u8(type_byte),
        })
    }

    pub fn get_priority(&self) -> (r: &[u8])
        requires
            self.wf(),
        ensures
            r@ == self.source@.subrange(self.priority.start as int, self.priority.end as int),
    {
        &self.source.as_slice()[self.priority.start..self.priority.end]
    }

    pub fn get_payload(&self) -> (r: &[u8])
        requires
            self.wf(),
        ensures
            r@ == self.source@.subrange(self.payload.start as int, self.payload.end as int),
    {
        &self.source.as_slice()[self.payload.start..self.payload.end]
    }

    pub fn get_padding(&self) -> (r: &[u8])
        requires
            self.wf(),
        ensures
            r@ == self.source@.subrange(self.padding.start as int, self.padding.end as int),
    {
        &self.source.as_slice()[self.padding.start..self.padding.end]
    }

    pub fn is_ack(&self) -> (r: bool)
        ensures
            r == has_flag(self.flags, 1),
    {
        self.flags % 2 == 1
    }

    pub fn is_end_stream(&self) -> (r: bool)
        ensures
            r == has_flag(self.flags, 1),
    {
        self.flags % 2 == 1
    }

    pub fn is_end_headers(&self) -> (r: bool)
        ensures
            r == has_flag(self.flags, 4),
    {
        (self.flags / 4) % 2 == 1
    }

    pub fn is_padded(&self) -> (r: bool)
        ensures
            r == has_flag(self.flags, 8),
    {
        (self.flags / 8) % 2 == 1
    }

    pub fn is_priority(&self) -> (r: bool)
        ensures
            r == has_flag(self.flags, 32),
    {
        (self.flags / 32) % 2 == 1
    }
}


impl Http2Frame {
    /// The payload length announced by a 9-byte frame header.
    pub fn length_of(header: &[u8]) -> (r: usize)
        requires
            header@.len() >= 9,
        ensures
            r as nat == header_length(header@),
    {
        header[0] as usize * 65536 + header[1] as usize * 256 + header[2] as usize
    }
}
/// Whether an optional priority block is kept by `create`.
pub open spec fn keeps_priority(priority: Option<Seq<u8>>) -> bool {
    priority matches Some(p) && p.len() == 5
}

/// Whether optional padding is kept by `create`.
pub open spec fn keeps_padding(padding: Option<Seq<u8>>) -> bool {
    padding matches Some(p) && p.len() <= 255
}

pub open spec fn opt_bytes(o: Option<Seq<u8>>) -> Seq<u8> {
    match o {
        Some(s) => s,
        None => seq![],
    }
}

/// The frame body before the length check: pad length, priority block, payload and
/// padding, each only when kept.
pub open spec fn frame_body(priority: Option<Seq<u8>>, payload: Option<Seq<u8>>, padding: Option<Seq<u8>>) -> Seq<u8> {
    let pad = opt_bytes(padding);
    (if keeps_padding(padding) { seq![pad.len() as u8] } else { seq![] })
        + (if keeps_priority(priority) { opt_bytes(priority) } else { seq![] })
        + (if payload matches Some(p) && p.len() <= MAX_FRAME_LENGTH { opt_bytes(payload) } else { seq![] })
        + (if keeps_padding(padding) { pad } else { seq![] })
}

/// The 9-byte frame header (RFC 7540 section 4.1), reserved bit zero.
pub open spec fn frame_header(length: nat, type_byte: u8, flags: u8, stream_id: u32) -> Seq<u8> {
    seq![
        (length / 65536) as u8,
        ((length / 256) % 256) as u8,
        (length % 256) as u8,
        type_byte,
        flags,
        ((stream_id as nat / 16777216) % 128) as u8,
        ((stream_id as nat / 65536) % 256) as u8,
        ((stream_id as nat / 256) % 256) as u8,
        (stream_id as nat % 256) as u8,
    ]
}

/// The bytes `create` emits: the caller's flags with PADDED and PRIORITY added for
/// the fields kept, or a bare header of length zero when the body would not fit.
pub open spec fn create_spec(ftype: Http2FrameType, flags: u8, stream_id: u32, priority: Option<Seq<u8>>, payload: Option<Seq<u8>>, padding: Option<Seq<u8>>) -> Seq<u8> {
    let body = frame_body(priority, payload, padding);
    if body.len() > MAX_FRAME_LENGTH {
        frame_header(0, frame_type_byte(ftype), flags, stream_id)
    } else {
        let f = flags | (if keeps_priority(priority) { FLAG_PRIORITY } else { 0u8 }) | (if keeps_padding(padding) {
            FLAG_PADDED
        } else {
            0u8
        });
        frame_header(body.len(), frame_type_byte(ftype), f, stream_id) + body
    }
}

pub open spec fn opt_view(o: Option<&[u8]>) -> Option<Seq<u8>> {
    match o {
        Some(s) => Some(s@),
        None => None,
    }
}

impl Http2Frame {
    /// Builds the bytes of a frame; a priority block is kept only when it has 5
    /// bytes, padding only when it has at most 255.
    pub fn create(ftype: Http2FrameType, flags: u8, stream_id: u32, priority: Option<&[u8]>, payload: Option<&[u8]>, padding: Option<&[u8]>) -> (r: Vec<u8>)
        ensures
            r@ == create_spec(ftype, flags, stream_id, opt_view(priority), opt_view(payload), opt_view(padding)),
    {
        let ghost pri_v = opt_view(priority);
        let ghost pay_v = opt_view(payload);
        let ghost pad_v = opt_view(padding);
        let prio: Option<&[u8]> = match priority {
            Some(p) => if p.len() == 5 { Some(p) } else { None },
            None => None,
        };
        let pay: Option<&[u8]> = match payload {
            Some(p) => if p.len() <= MAX_FRAME_LENGTH { Some(p) } else { None },
            None => None,
        };
        let pad: Option<&[u8]> = match padding {
            Some(p) => if p.len() <= 255 { Some(p) } else { None },
            None => None,
        };
        let mut body: Vec<u8> = Vec::new();
        if let Some(p) = pad {
            body.push(p.len() as u8);
        }
        if let Some(p) = prio {
            body.extend_from_slice(p);
        }
        if let Some(p) = pay {
            body.extend_from_slice(p);
        }
        if let Some(p) = pad {
            body.extend_from_slice(p);
        }
        proof {
            assert(body@ =~= frame_body(pri_v, pay_v, pad_v));
        }
        let type_byte = ftype.as_u8();
        let mut frame: Vec<u8> = Vec::new();
        if body.len() > MAX_FRAME_LENGTH {
            push_header(&mut frame, 0, type_byte, flags, stream_id);
            proof {
                assert(frame@ =~= create_spec(ftype, flags, stream_id, pri_v, pay_v, pad_v));
            }
            return frame;
        }
        let f = flags | (if prio.is_some() { FLAG_PRIORITY } else { 0u8 }) | (if pad.is_some() { FLAG_PADDED } else { 0u8 });
        push_header(&mut frame, body.len() as u32, type_byte, f, stream_id);
        frame.extend_from_slice(body.as_slice());
        proof {
            assert(frame@ =~= create_spec(ftype, flags, stream_id, pri_v, pay_v, pad_v));
        }
        frame
    }
}

proof fn lemma_merged_flags(flags: u8, p: bool, d: bool)
    requires
        p || flags & 0x20 == 0,
        d || flags & 0x08 == 0,
    ensures
        has_flag(flags | (if p { FLAG_PRIORITY } else { 0u8 }) | (if d { FLAG_PADDED } else { 0u8 }), 8) == d,
        has_flag(flags | (if p { FLAG_PRIORITY } else { 0u8 }) | (if d { FLAG_PADDED } else { 0u8 }), 32) == p,
{
    if p && d {
        assert((flags | 0x20u8 | 0x08u8) / 8 % 2 == 1 && (flags | 0x20u8 | 0x08u8) / 32 % 2 == 1) by (bit_vector);
    } else if p {
        assert((flags | 0x20u8 | 0u8) / 8 % 2 == 0 && (flags | 0x20u8 | 0u8) / 32 % 2 == 1) by (bit_vector)
            requires flags & 0x08 == 0;
    } else if d {
        assert((flags | 0u8 | 0x08u8) / 8 % 2 == 1 && (flags | 0u8 | 0x08u8) / 32 % 2 == 0) by (bit_vector)
            requires flags & 0x20 == 0;
    } else {
        assert((flags | 0u8 | 0u8) / 8 % 2 == 0 && (flags | 0u8 | 0u8) / 32 % 2 == 0) by (bit_vector)
            requires flags & 0x20 == 0, flags & 0x08 == 0;
    }
}

/// A frame built by `create` parses back into the same parts: its type, the flags
/// with PADDED and PRIORITY set for the parts given, the stream id, and the
/// priority block, payload and padding. This holds when the caller's flags set
/// PADDED or PRIORITY only with the part they announce, the id fits in 31 bits,
/// the parts are of the sizes `create` keeps and the frame length fits in 24 bits.
pub proof fn lemma_frame_round_trip(ftype: Http2FrameType, flags: u8, stream_id: u32, priority: Option<Seq<u8>>, payload: Option<Seq<u8>>, padding: Option<Seq<u8>>)
    requires
        frame_type_of(frame_type_byte(ftype)) == ftype,
        priority is Some || flags & 0x20 == 0,
        padding is Some || flags & 0x08 == 0,
        stream_id < 0x8000_0000,
        priority is None || keeps_priority(priority),
        padding is None || keeps_padding(padding),
        frame_body(priority, payload, padding).len() <= MAX_FRAME_LENGTH,
        payload matches Some(p) ==> p.len() <= MAX_FRAME_LENGTH,
    ensures
        ({
            let s = create_spec(ftype, flags, stream_id, priority, payload, padding);
            &&& frame_ok(s)
            &&& s.len() == 9 + header_length(s)
            &&& frame_type_of(s[3]) == ftype
            &&& s[4] == flags | (if priority is Some { FLAG_PRIORITY } else { 0u8 }) | (if padding is Some { FLAG_PADDED } else { 0u8 })
            &&& header_stream_id(s) == stream_id as nat
            &&& has_flag(s[4], 32) == priority is Some
            &&& has_flag(s[4], 8) == padding is Some
            &&& s.subrange(priority_start(s) as int, payload_start(s) as int) == opt_bytes(priority)
            &&& s.subrange(payload_start(s) as int, payload_end(s)) == opt_bytes(payload)
            &&& s.subrange(payload_end(s), (9 + header_length(s)) as int) == opt_bytes(padding)
        }),
{
    let body = frame_body(priority, payload, padding);
    let s = create_spec(ftype, flags, stream_id, priority, payload, padding);
    let f = flags | (if keeps_priority(priority) { FLAG_PRIORITY } else { 0u8 }) | (if keeps_padding(padding) { FLAG_PADDED } else { 0u8 });
    lemma_merged_flags(flags, keeps_priority(priority), keeps_padding(padding));
    let n = body.len();
    assert(s == frame_header(n, frame_type_byte(ftype), f, stream_id) + body);
    assert(header_length(s) == n);
    assert(header_stream_id(s) == stream_id as nat);
    let pl = if keeps_padding(padding) { 1int } else { 0int };
    let pr = if keeps_priority(priority) { 5int } else { 0int };
    let pay = opt_bytes(payload);
    let pad = opt_bytes(padding);
    assert(s.subrange(9, 9 + pl) =~= (if keeps_padding(padding) { seq![pad.len() as u8] } else { seq![] }));
    assert(header_pad(s) == pad.len());
    assert(s.subrange(9 + pl, 9 + pl + pr) =~= opt_bytes(priority));
    assert(s.subrange(9 + pl + pr, 9 + pl + pr + pay.len()) =~= pay);
    assert(s.subrange(9 + pl + pr + pay.len(), 9 + n as int) =~= pad);
}

/// Appends a frame header.
fn push_header(frame: &mut Vec<u8>, length: u32, type_byte: u8, flags: u8, stream_id: u32)
    requires
        length as nat <= MAX_FRAME_LENGTH,
    ensures
        final(frame)@ == old(frame)@ + frame_header(length as nat, type_byte, flags, stream_id),
{
    let ghost start = frame@;
    frame.push((length / 65536) as u8);
    frame.push(((length / 256) % 256) as u8);
    frame.push((length % 256) as u8);
    frame.push(type_byte);
    frame.push(flags);
    frame.push(((stream_id / 16777216) % 128) as u8);
    frame.push(((stream_id / 65536) % 256) as u8);
    frame.push(((stream_id / 256) % 256) as u8);
    frame.push((stream_id % 256) as u8);
    assert(frame@ =~= start + frame_header(length as nat, type_byte, flags, stream_id));
}

} // verus!
