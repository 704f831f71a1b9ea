use vstd::prelude::*;
use crate::frame::create_spec;
use crate::frame::Http2Frame;
use crate::frame::Http2FrameType;
use crate::frame::MAX_FRAME_LENGTH;
use crate::settings::Http2Settings;

verus! {

/// Largest stream identifier (31 bits).
pub const MAX_STREAM_ID: u32 = 0x7fff_ffff;

/// Largest flow-control window (RFC 7540 section 6.9.1).
pub const MAX_WINDOW: i64 = 0x7fff_ffff;

/// The 24-byte client connection preface (RFC 7540 section 3.5).
pub open spec fn preface_spec() -> Seq<u8> {
    seq![80u8, 82, 73, 32, 42, 32, 72, 84, 84, 80, 47, 50, 46, 48, 13, 10, 13, 10, 83, 77, 13, 10, 13, 10]
}

/// `PRI * HTTP/2.0\r\n\r\nSM\r\n\r\n`.
pub fn preface() -> (r: Vec<u8>)
    ensures
        r@ == preface_spec(),
{
    let r: Vec<u8> = vec![80u8, 82, 73, 32, 42, 32, 72, 84, 84, 80, 47, 50, 46, 48, 13, 10, 13, 10, 83, 77, 13, 10, 13, 10];
    assert(r@ =~= preface_spec());
    r
}

/// Whether `buf` is exactly the connection preface.
pub fn is_preface(buf: &[u8]) -> (r: bool)
    ensures
        r == (buf@ == preface_spec()),
{
    let p = preface();
    if buf.len() != p.len() {
        return false;
    }
    let mut i: usize = 0;
    while i < buf.len()
        invariant
            p@ == preface_spec(),
            buf@.len() == p@.len(),
            i <= buf@.len(),
            forall|k: int| 0 <= k < i ==> buf@[k] == p@[k],
        decreases buf@.len() - i,
    {
        if buf[i] != p[i] {
            return false;
        }
        i += 1;
    }
    assert(buf@ =~= p@);
    true
}

#[derive(Debug, Clone, Copy, PartialEq, Eq, Structural)]
pub enum Mode {
    Ambiguous,
    Client,
    Server,
}

impl Mode {
    pub fn is_ambiguous(&self) -> (r: bool)
        ensures
            r == (*self == Mode::Ambiguous),
    {
        match self {
            Mode::Ambiguous => true,
            _ => false,
        }
    }

    pub fn is_client(&self) -> (r: bool)
        ensures
            r == (*self == Mode::Client),
    {
        match self {
            Mode::Client => true,
            _ => false,
        }
    }

    pub fn is_server(&self) -> (r: bool)
        ensures
            r == (*self == Mode::Server),
    {
        match self {
            Mode::Server => true,
            _ => false,
        }
    }
}

/// The stream identifier opened after `max_id`: the next odd one for a client, the
/// next even one for a server, the next one before negotiation.
pub open spec fn next_stream_id_spec(mode: Mode, max_id: nat) -> nat {
    match mode {
        Mode::Ambiguous => max_id + 1,
        Mode::Client => if max_id % 2 == 1 { max_id + 2 } else { max_id + 1 },
        Mode::Server => if max_id % 2 == 0 { max_id + 2 } else { max_id + 1 },
    }
}

/// The identifier of the next stream to open; `None` once identifiers are
/// exhausted.
pub fn next_stream_id(mode: Mode, max_id: u32) -> (r: Option<u32>)
    ensures
        next_stream_id_spec(mode, max_id as nat) <= MAX_STREAM_ID ==> r == Some(next_stream_id_spec(mode, max_id as nat) as u32),
        next_stream_id_spec(mode, max_id as nat) > MAX_STREAM_ID ==> r is None,
        r matches Some(id) ==> id > max_id,
        r matches Some(id) ==> (mode == Mode::Client ==> id % 2 == 1) && (mode == Mode::Server ==> id % 2 == 0),
{
    if max_id >= MAX_STREAM_ID {
        return None;
    }
    let id = match mode {
        Mode::Ambiguous => max_id + 1,
        Mode::Client => if max_id % 2 == 1 { max_id + 2 } else { max_id + 1 },
        Mode::Server => if max_id % 2 == 0 { max_id + 2 } else { max_id + 1 },
    };
    if id > MAX_STREAM_ID {
        None
    } else {
        Some(id)
    }
}

/// Whether a peer may open a stream with this identifier in `mode`.
pub open spec fn peer_allowed_spec(mode: Mode, stream_id: u32) -> bool {
    match mode {
        Mode::Ambiguous => true,
        Mode::Client => stream_id % 2 == 0,
        Mode::Server => stream_id % 2 == 1,
    }
}

/// Whether a stream opened by the peer has the parity of the peer's role; any id
/// is accepted before negotiation.
pub fn peer_stream_allowed(mode: Mode, stream_id: u32) -> (r: bool)
    ensures
        r == peer_allowed_spec(mode, stream_id),
{
    match mode {
        Mode::Ambiguous => true,
        Mode::Client => stream_id % 2 == 0,
        Mode::Server => stream_id % 2 == 1,
    }
}

/// Send credit taken for one round of `send_data`: the most that the remaining
/// bytes and both windows allow, and the windows after it is deducted.
pub open spec fn credit_spec(remaining: nat, conn: int, stream: int) -> nat {
    let m = if conn < stream { conn } else { stream };
    if m <= 0 {
        0
    } else if remaining < m {
        remaining
    } else {
        m as nat
    }
}

/// Takes send credit from the connection and stream windows at once, as one
/// critical section: `n = min(remaining, conn, stream)`, none when a window is
/// not positive.
pub fn take_credit(remaining: usize, conn: &mut i64, stream: &mut i64) -> (n: usize)
    ensures
        n as nat == credit_spec(remaining as nat, *old(conn) as int, *old(stream) as int),
        *final(conn) == *old(conn) - n,
        *final(stream) == *old(stream) - n,
        *old(conn) >= 0 ==> *final(conn) >= 0,
        *old(stream) >= 0 ==> *final(stream) >= 0,
{
    let m = if *conn < *stream { *conn } else { *stream };
    if m <= 0 {
        return 0;
    }
    let n: usize = if (remaining as u64) < (m as u64) { remaining } else { m as usize };
    *conn = *conn - n as i64;
    *stream = *stream - n as i64;
    n
}

/// Adds a WINDOW_UPDATE increment to a window; `None` when the result would pass
/// 2^31 - 1, a flow-control error.
pub fn apply_window_update(window: i64, increment: u32) -> (r: Option<i64>)
    requires
        window <= MAX_WINDOW,
    ensures
        window + increment <= MAX_WINDOW ==> r == Some((window + increment) as i64),
        window + increment > MAX_WINDOW ==> r is None,
{
    if window as i128 + increment as i128 > MAX_WINDOW as i128 {
        None
    } else {
        Some(window + increment as i64)
    }
}

/// The largest frame payload that the peer accepts: its setting, or 16384 by default.
pub fn max_frame_size(settings: &Http2Settings) -> (r: usize)
    ensures
        settings.max_frame_size matches Some(v) ==> (v > 0 && v as nat <= MAX_FRAME_LENGTH ==> r == v),
        settings.max_frame_size is None ==> r == 16384,
        1 <= r <= MAX_FRAME_LENGTH,
{
    match settings.max_frame_size {
        Some(v) => if v > 0 && v as usize <= MAX_FRAME_LENGTH {
            v as usize
        } else if v == 0 {
            16384
        } else {
            MAX_FRAME_LENGTH
        },
        None => 16384,
    }
}

/// The pieces that `buf` is cut into: full pieces of `max` bytes, then the rest
/// when there is one.
pub open spec fn data_pieces(buf: Seq<u8>, max: nat) -> Seq<Seq<u8>>
    decreases buf.len(),
{
    if buf.len() == 0 || max == 0 {
        seq![]
    } else {
        let k = if buf.len() <= max { buf.len() } else { max };
        seq![buf.subrange(0, k as int)] + data_pieces(buf.subrange(k as int, buf.len() as int), max)
    }
}

/// The pieces joined back together.
pub open spec fn join(pieces: Seq<Seq<u8>>) -> Seq<u8>
    decreases pieces.len(),
{
    if pieces.len() == 0 {
        seq![]
    } else {
        pieces[0] + join(pieces.drop_first())
    }
}

/// DATA frames without END_STREAM on `stream_id`, one for each piece.
pub open spec fn data_frames_of(stream_id: u32, pieces: Seq<Seq<u8>>) -> Seq<u8>
    decreases pieces.len(),
{
    if pieces.len() == 0 {
        seq![]
    } else {
        create_spec(Http2FrameType::Data, 0, stream_id, None, Some(pieces[0]), None) + data_frames_of(stream_id, pieces.drop_first())
    }
}

pub open spec fn data_frames_spec(stream_id: u32, buf: Seq<u8>, max: nat) -> Seq<u8> {
    data_frames_of(stream_id, data_pieces(buf, max))
}

proof fn lemma_data_step(stream_id: u32, buf: Seq<u8>, max: nat)
    requires
        buf.len() > 0,
        max > 0,
    ensures
        ({
            let k = if buf.len() <= max { buf.len() } else { max };
            data_frames_spec(stream_id, buf, max) == create_spec(Http2FrameType::Data, 0, stream_id, None,
                Some(buf.subrange(0, k as int)), None) + data_frames_spec(stream_id, buf.subrange(k as int, buf.len() as int), max)
        }),
{
    let k = if buf.len() <= max { buf.len() } else { max };
    let ps = data_pieces(buf, max);
    assert(ps.drop_first() =~= data_pieces(buf.subrange(k as int, buf.len() as int), max));
}

/// The DATA frames that carry `buf`, cut at `max` bytes of payload.
pub fn data_frames(stream_id: u32, buf: &[u8], max: usize) -> (r: Vec<u8>)
    requires
        1 <= max <= MAX_FRAME_LENGTH,
    ensures
        r@ == data_frames_spec(stream_id, buf@, max as nat),
{
    let mut out: Vec<u8> = Vec::new();
    let mut pos: usize = 0;
    let ghost whole = data_frames_spec(stream_id, buf@, max as nat);
    proof {
        assert(buf@.subrange(0, buf@.len() as int) =~= buf@);
        assert(out@ + whole =~= whole);
    }
    while pos < buf.len()
        invariant
            1 <= max <= MAX_FRAME_LENGTH,
            pos <= buf@.len(),
            whole == data_frames_spec(stream_id, buf@, max as nat),
            whole == out@ + data_frames_spec(stream_id, buf@.subrange(pos as int, buf@.len() as int), max as nat),
        decreases buf@.len() - pos,
    {
        let rest = buf.len() - pos;
        let k = if rest <= max { rest } else { max };
        let piece = &buf[pos..pos + k];
        let frame = Http2Frame::create(Http2FrameType::Data, 0, stream_id, None, Some(piece), None);
        let ghost before = out@;
        let ghost tail = buf@.subrange(pos as int, buf@.len() as int);
        proof {
            assert(tail.subrange(0, k as int) =~= piece@);
            assert(tail.subrange(k as int, tail.len() as int) =~= buf@.subrange(pos + k, buf@.len() as int));
            lemma_data_step(stream_id, tail, max as nat);
        }
        out.extend_from_slice(frame.as_slice());
        proof {
            assert(out@ =~= before + frame@);
            assert(whole =~= out@ + data_frames_spec(stream_id, buf@.subrange(pos + k, buf@.len() as int), max as nat));
        }
        pos = pos + k;
    }
    proof {
        assert(buf@.subrange(pos as int, buf@.len() as int) =~= Seq::<u8>::empty());
        assert(out@ + Seq::<u8>::empty() =~= out@);
    }
    out
}

/// Every piece that `data_frames` cuts has between one and `max` bytes, so that no
/// DATA frame is longer than the peer's maximum frame size, and the pieces joined
/// are the whole buffer.
pub proof fn lemma_pieces_fit(buf: Seq<u8>, max: nat)
    requires
        max >= 1,
    ensures
        forall|i: int| 0 <= i < data_pieces(buf, max).len() ==> 1 <= #[trigger] data_pieces(buf, max)[i].len() <= max,
        join(data_pieces(buf, max)) == buf,
    decreases buf.len(),
{
    if buf.len() > 0 {
        let k = if buf.len() <= max { buf.len() } else { max };
        let rest = buf.subrange(k as int, buf.len() as int);
        lemma_pieces_fit(rest, max);
        let ps = data_pieces(buf, max);
        assert(ps.drop_first() =~= data_pieces(rest, max));
        assert forall|i: int| 0 <= i < ps.len() implies 1 <= #[trigger] ps[i].len() <= max by {
            if i > 0 {
                assert(ps[i] == data_pieces(rest, max)[i - 1]);
            }
        }
        assert(buf =~= buf.subrange(0, k as int) + rest);
    } else {
        assert(data_pieces(buf, max) =~= Seq::<Seq<u8>>::empty());
    }
}

} // verus!
