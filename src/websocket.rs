use vstd::prelude::*;
use std::ops::Range;
use vstd::arithmetic::power2::pow2;
use vstd::arithmetic::power2::lemma2_to64;
use vstd::arithmetic::power2::lemma2_to64_rest;
use vstd::arithmetic::power2::lemma_pow2_adds;

verus! {

#[derive(Debug, Clone, Copy, PartialEq, Eq, Structural)]
pub enum WebSocketOpcode {
    Continuation,
    Text,
    Binary,
    OtherNonControl(u8),
    ConnectionClose,
    Ping,
    Pong,
    OtherControl(u8),
    Invalid(u8),
}

pub open spec fn opcode_of(value: u8) -> WebSocketOpcode {
    if value == 0 {
        WebSocketOpcode::Continuation
    } else if value == 1 {
        WebSocketOpcode::Text
    } else if value == 2 {
        WebSocketOpcode::Binary
    } else if 3 <= value <= 7 {
        WebSocketOpcode::OtherNonControl(value)
    } else if value == 8 {
        WebSocketOpcode::ConnectionClose
    } else if value == 9 {
        WebSocketOpcode::Ping
    } else if value == 10 {
        WebSocketOpcode::Pong
    } else if 11 <= value <= 15 {
        WebSocketOpcode::OtherControl(value)
    } else {
        WebSocketOpcode::Invalid(value)
    }
}

pub open spec fn opcode_byte(op: WebSocketOpcode) -> u8 {
    match op {
        WebSocketOpcode::Continuation => 0,
        WebSocketOpcode::Text => 1,
        WebSocketOpcode::Binary => 2,
        WebSocketOpcode::OtherNonControl(v) => v,
        WebSocketOpcode::ConnectionClose => 8,
        WebSocketOpcode::Ping => 9,
        WebSocketOpcode::Pong => 10,
        WebSocketOpcode::OtherControl(v) => v,
        WebSocketOpcode::Invalid(v) => v,
    }
}

impl WebSocketOpcode {
    /// The opcode with the given four-bit code (RFC 6455 section 5.2).
    pub fn from_u8(value: u8) -> (r: Self)
        ensures
            r == opcode_of(value),
    {
        if value == 0 {
            WebSocketOpcode::Continuation
        } else if value == 1 {
            WebSocketOpcode::Text
        } else if value == 2 {
            WebSocketOpcode::Binary
        } else if 3 <= value && value <= 7 {
            WebSocketOpcode::OtherNonControl(value)
        } else if value == 8 {
            WebSocketOpcode::ConnectionClose
        } else if value == 9 {
            WebSocketOpcode::Ping
        } else if value == 10 {
            WebSocketOpcode::Pong
        } else if 11 <= value && value <= 15 {
            WebSocketOpcode::OtherControl(value)
        } else {
            WebSocketOpcode::Invalid(value)
        }
    }

    pub fn as_u8(self) -> (r: u8)
        ensures
            r == opcode_byte(self),
    {
        match self {
            WebSocketOpcode::Continuation => 0,
            WebSocketOpcode::Text => 1,
            WebSocketOpcode::Binary => 2,
            WebSocketOpcode::OtherNonControl(v) => v,
            WebSocketOpcode::ConnectionClose => 8,
            WebSocketOpcode::Ping => 9,
            WebSocketOpcode::Pong => 10,
            WebSocketOpcode::OtherControl(v) => v,
            WebSocketOpcode::Invalid(v) => v,
        }
    }

    /// Control frames are those with opcodes 8 to 15.
    pub fn is_control(self) -> (r: bool)
        ensures
            r == (opcode_byte(self) >= 8),
    {
        self.as_u8() >= 8
    }
}

/// Big-endian value of a byte string.
pub open spec fn be_value(s: Seq<u8>) -> nat
    decreases s.len(),
{
    if s.len() == 0 {
        0
    } else {
        be_value(s.drop_last()) * 256 + s.last() as nat
    }
}

/// The `n` low bytes of `v`, big-endian.
pub open spec fn be_bytes(v: nat, n: nat) -> Seq<u8>
    decreases n,
{
    if n == 0 {
        seq![]
    } else {
        be_bytes(v / 256, (n - 1) as nat).push((v % 256) as u8)
    }
}

pub proof fn lemma_be_round_trip(v: nat, n: nat)
    requires
        v < pow2(8 * n),
    ensures
        be_value(be_bytes(v, n)) == v,
        be_bytes(v, n).len() == n,
    decreases n,
{
    if n == 0 {
        lemma2_to64();
    } else {
        lemma_pow2_adds(8 * (n - 1) as nat, 8);
        lemma2_to64();
        assert(v / 256 < pow2(8 * (n - 1) as nat)) by {
            vstd::arithmetic::div_mod::lemma_multiply_divide_lt(v as int, 256, pow2(8 * (n - 1) as nat) as int);
        }
        lemma_be_round_trip(v / 256, (n - 1) as nat);
        let b = be_bytes(v, n);
        assert(b.drop_last() == be_bytes(v / 256, (n - 1) as nat));
        vstd::arithmetic::div_mod::lemma_fundamental_div_mod(v as int, 256);
    }
}

/// The payload XOR-ed with the four-byte mask, byte `i` with mask byte `i mod 4`.
pub open spec fn apply_mask(p: Seq<u8>, m: Seq<u8>) -> Seq<u8> {
    Seq::new(p.len(), |i: int| p[i] ^ m[i % 4])
}

/// The 7-bit length field of the frame at the start of `s`.
pub open spec fn len_field(s: Seq<u8>) -> nat {
    s[1] as nat % 128
}

/// Length of the fixed header and the extended length.
pub open spec fn ws_header_len(s: Seq<u8>) -> nat {
    if len_field(s) == 126 {
        4
    } else if len_field(s) == 127 {
        10
    } else {
        2
    }
}

pub open spec fn ws_ext_len(s: Seq<u8>) -> nat {
    if len_field(s) == 126 {
        be_value(s.subrange(2, 4))
    } else if len_field(s) == 127 {
        be_value(s.subrange(2, 10))
    } else {
        0
    }
}

pub open spec fn ws_masked(s: Seq<u8>) -> bool {
    s[1] >= 128
}

pub open spec fn ws_payload_start(s: Seq<u8>) -> nat {
    ws_header_len(s) + if ws_masked(s) { 4nat } else { 0nat }
}

pub open spec fn ws_payload_len(s: Seq<u8>) -> nat {
    if len_field(s) > 125 { ws_ext_len(s) } else { len_field(s) }
}

/// Whether `s` starts with a whole frame (RFC 6455 section 5.2).
pub open spec fn ws_frame_ok(s: Seq<u8>) -> bool {
    &&& s.len() >= 2
    &&& s.len() >= ws_header_len(s)
    &&& s.len() >= ws_payload_start(s) + ws_payload_len(s)
}

#[derive(Debug)]
pub struct WebSocketFrame {
    pub source: Vec<u8>,
    pub fin: bool,
    pub rsv: u8,
    pub opcode_byte: u8,
    pub masked: bool,
    pub len: u8,
    pub ext_len: u64,
    pub mask: Range<usize>,
    pub payload: Range<usize>,
    pub opcode: WebSocketOpcode,
}

impl WebSocketFrame {
    /// The fields are those of the frame at the start of `source`.
    pub open spec fn wf(&self) -> bool {
        let s = self.source@;
        &&& ws_frame_ok(s)
        &&& s.len() <= usize::MAX
        &&& self.fin == (s[0] >= 128)
        &&& self.rsv == (s[0] / 16) % 8
        &&& self.opcode_byte == s[0] % 16
        &&& self.opcode == opcode_of(s[0] % 16)
        &&& self.masked == ws_masked(s)
        &&& self.len as nat == len_field(s)
        &&& self.ext_len as nat == ws_ext_len(s)
        &&& self.mask == if ws_masked(s) {
            (ws_header_len(s) as usize..(ws_header_len(s) + 4) as usize)
        } else {
            (0usize..0usize)
        }
        &&& self.payload == (ws_payload_start(s) as usize..(ws_payload_start(s) + ws_payload_len(s)) as usize)
    }

    /// The payload as it stands in the buffer.
    pub open spec fn payload_view(&self) -> Seq<u8> {
        self.source@.subrange(self.payload.start as int, self.payload.end as int)
    }

    /// The payload with the mask removed.
    pub open spec fn unmasked_view(&self) -> Seq<u8> {
        if self.masked {
            apply_mask(self.payload_view(), self.source@.subrange(self.mask.start as int, self.mask.end as int))
        } else {
            self.payload_view()
        }
    }

    /// Parses the frame at the start of `source`; `None` unless it holds the whole
    /// header, mask and payload.
    pub fn from_owned(source: Vec<u8>) -> (r: Option<Self>)
        ensures
            r.is_some() == ws_frame_ok(source@),
            r matches Some(f) ==> f.wf() && f.source@ == source@,
    {
        if source.len() < 2 {
            return None;
        }
        let b0 = source[0];
        let b1 = source[1];
        let fin = b0 >= 128;
        let rsv = (b0 / 16) % 8;
        let opcode_byte = b0 % 16;
        let masked = b1 >= 128;
        let len = b1 % 128;
        let header_len: usize = if len == 126 {
            4
        } else if len == 127 {
            10
        } else {
            2
        };
        if source.len() < header_len {
            return None;
        }
        let ext_len: u64 = if len == 126 {
            read_be(source.as_slice(), 2, 4)
        } else if len == 127 {
            read_be(source.as_slice(), 2, 10)
        } else {
            0
        };
        let pay_start: usize = if masked { header_len + 4 } else { header_len };
        let pay_len: u64 = if len > 125 { ext_len } else { len as u64 };
        if pay_start > source.len() || pay_len > (source.len() - pay_start) as u64 {
            return None;
        }
        let pay_end = pay_start + pay_len as usize;
        let mask = if masked { header_len..header_len + 4 } else { 0..0 };
        Some(WebSocketFrame {
            source,
            fin,
            rsv,
            opcode_byte,
            masked,
            len,
            ext_len,
            mask,
            payload: pay_start..pay_end,
            opcode: WebSocketOpcode::from_u8(opcode_byte),
        })
    }

    /// Removes the mask from the payload in the buffer and returns the payload.
    pub fn unmask_in_place(&mut self) -> (r: Vec<u8>)
        requires
            old(self).wf(),
        ensures
            r@ == old(self).unmasked_view(),
            final(self).payload_view() == old(self).unmasked_view(),
            final(self).wf(),
            *final(self) == (WebSocketFrame { source: final(self).source, ..*old(self) }),
    {
        let unmasked = self.get_unmasked();
        let start = self.payload.start;
        let mut i: usize = 0;
        let ghost old_source = self.source@;
        while i < unmasked.len()
            invariant
                *self == (WebSocketFrame { source: self.source, ..*old(self) }),
                old(self).wf(),
                start == self.payload.start,
                unmasked@ == old(self).unmasked_view(),
                unmasked@.len() == self.payload.end - self.payload.start,
                self.payload.start <= self.payload.end <= self.source@.len(),
                self.source@.len() == old_source.len(),
                old_source == old(self).source@,
                i <= unmasked@.len(),
                forall|k: int| 0 <= k < i ==> #[trigger] self.source@[start + k] == unmasked@[k],
                forall|k: int| 0 <= k < self.source@.len() && !(start <= k < start + i) ==> #[trigger] self.source@[k] == old_source[k],
            decreases unmasked@.len() - i,
        {
            self.source.set(start + i, unmasked[i]);
            i += 1;
        }
        assert forall|k: int| 0 <= k < unmasked@.len() implies #[trigger] self.payload_view()[k] == unmasked@[k] by {
            assert(self.source@[start + k] == unmasked@[k]);
        }
        assert(self.payload_view() =~= unmasked@);
        proof {
            let s0 = old_source;
            let s1 = self.source@;
            assert(s1[0] == s0[0]);
            assert(s1[1] == s0[1]);
            if len_field(s0) == 126 {
                assert(s1.subrange(2, 4) =~= s0.subrange(2, 4));
            }
            if len_field(s0) == 127 {
                assert(s1.subrange(2, 10) =~= s0.subrange(2, 10));
            }
            assert(ws_ext_len(s1) == ws_ext_len(s0));
        }
        unmasked
    }

    /// A copy of the payload with the mask removed.
    pub fn get_unmasked(&self) -> (r: Vec<u8>)
        requires
            self.wf(),
        ensures
            r@ == self.unmasked_view(),
            r@.len() == self.payload.end - self.payload.start,
    {
        let payload = &self.source.as_slice()[self.payload.start..self.payload.end];
        let mut out: Vec<u8> = Vec::new();
        if !self.masked {
            out.extend_from_slice(payload);
            assert(out@ =~= self.unmasked_view());
            return out;
        }
        let m = &self.source.as_slice()[self.mask.start..self.mask.end];
        let mut i: usize = 0;
        while i < payload.len()
            invariant
                m@.len() == 4,
                i <= payload@.len(),
                out@.len() == i,
                forall|k: int| 0 <= k < i ==> #[trigger] out@[k] == payload@[k] ^ m@[k % 4],
            decreases payload@.len() - i,
        {
            out.push(payload[i] ^ m[i % 4]);
            i += 1;
        }
        assert(out@ =~= apply_mask(payload@, m@));
        out
    }

    pub fn get_payload(&self) -> (r: &[u8])
        requires
            self.wf(),
        ensures
            r@ == self.payload_view(),
    {
        &self.source.as_slice()[self.payload.start..self.payload.end]
    }
}

/// Big-endian value of `s[start..end]`, at most eight bytes.
fn read_be(s: &[u8], start: usize, end: usize) -> (r: u64)
    requires
        start <= end <= s@.len(),
        end - start <= 8,
    ensures
        r as nat == be_value(s@.subrange(start as int, end as int)),
{
    let mut acc: u64 = 0;
    let mut i: usize = start;
    proof {
        lemma2_to64();
        lemma2_to64_rest();
    }
    while i < end
        invariant
            start <= i <= end,
            end <= s@.len(),
            end - start <= 8,
            acc as nat == be_value(s@.subrange(start as int, i as int)),
            (acc as nat) < pow2(8 * (i - start) as nat),
        decreases end - i,
    {
        proof {
            let t = s@.subrange(start as int, i + 1);
            assert(t.drop_last() =~= s@.subrange(start as int, i as int));
            lemma_pow2_adds(8 * (i - start) as nat, 8);
            lemma2_to64();
            lemma2_to64_rest();
            vstd::arithmetic::power2::lemma_pow2_strictly_increases(8 * (i - start) as nat, 64);
            assert((acc as nat) * 256 + 255 < pow2(8 * (i - start) as nat) * 256) by (nonlinear_arith)
                requires (acc as nat) < pow2(8 * (i - start) as nat);
        }
        acc = acc * 256 + s[i] as u64;
        i += 1;
    }
    acc
}

/// The `n` low bytes of `v`, big-endian.
fn write_be(out: &mut Vec<u8>, v: u64, n: usize)
    ensures
        final(out)@ == old(out)@ + be_bytes(v as nat, n as nat),
    decreases n,
{
    if n == 0 {
        assert(old(out)@ + be_bytes(v as nat, 0) =~= old(out)@);
        return;
    }
    write_be(out, v / 256, n - 1);
    let ghost mid = out@;
    out.push((v % 256) as u8);
    assert(out@ =~= old(out)@ + be_bytes(v as nat, n as nat));
}

/// The length field and extended length for a payload of `n` bytes.
pub open spec fn length_bytes(n: nat, mask_bit: nat) -> Seq<u8> {
    if n > 65535 {
        seq![(mask_bit + 127) as u8] + be_bytes(n, 8)
    } else if n > 125 {
        seq![(mask_bit + 126) as u8] + be_bytes(n, 2)
    } else {
        seq![(mask_bit + n) as u8]
    }
}

/// The bytes `create` emits (RFC 6455 section 5.2); a mask is used only when it
/// has four bytes.
pub open spec fn ws_create_spec(fin: bool, rsv: u8, opcode: u8, mask: Option<Seq<u8>>, payload: Seq<u8>) -> Seq<u8> {
    let b0 = ((if fin { 128nat } else { 0nat }) + (rsv as nat % 8) * 16 + opcode as nat % 16) as u8;
    match mask {
        Some(m) => if m.len() == 4 {
            seq![b0] + length_bytes(payload.len(), 128) + m + apply_mask(payload, m)
        } else {
            seq![b0] + length_bytes(payload.len(), 0) + payload
        },
        None => seq![b0] + length_bytes(payload.len(), 0) + payload,
    }
}

impl WebSocketFrame {
    /// Builds a frame: FIN, the three RSV bits, the opcode, the length in the shortest
    /// form, the mask when one of four bytes is given, and the payload, masked with it.
    pub fn create(fin: bool, rsv: u8, opcode: u8, mask: Option<&[u8]>, payload: &[u8]) -> (r: Vec<u8>)
        ensures
            r@ == ws_create_spec(fin, rsv, opcode, match mask {
                Some(m) => Some(m@),
                None => None,
            }, payload@),
    {
        let m: Option<&[u8]> = match mask {
            Some(x) => if x.len() == 4 { Some(x) } else { None },
            None => None,
        };
        let mask_bit: u8 = if m.is_some() { 128 } else { 0 };
        let mut buff: Vec<u8> = Vec::new();
        let b0: u8 = (if fin { 128u8 } else { 0u8 }) + (rsv % 8) * 16 + opcode % 16;
        buff.push(b0);
        let n = payload.len();
        if n > 65535 {
            buff.push(mask_bit + 127);
            write_be(&mut buff, n as u64, 8);
        } else if n > 125 {
            buff.push(mask_bit + 126);
            write_be(&mut buff, n as u64, 2);
        } else {
            buff.push(mask_bit + n as u8);
        }
        let ghost head = buff@;
        assert(head =~= seq![b0] + length_bytes(n as nat, mask_bit as nat));
        match m {
            Some(k) => {
                buff.extend_from_slice(k);
                let mut i: usize = 0;
                let ghost base = buff@;
                while i < n
                    invariant
                        k@.len() == 4,
                        n == payload@.len(),
                        i <= n,
                        base == head + k@,
                        buff@.len() == base.len() + i,
                        forall|j: int| 0 <= j < base.len() ==> #[trigger] buff@[j] == base[j],
                        forall|j: int| 0 <= j < i ==> #[trigger] buff@[base.len() + j] == payload@[j] ^ k@[j % 4],
                    decreases n - i,
                {
                    buff.push(payload[i] ^ k[i % 4]);
                    i += 1;
                }
                assert forall|j: int| 0 <= j < buff@.len() implies #[trigger] buff@[j] == (head + k@ + apply_mask(payload@, k@))[j] by {
                    if j < base.len() {
                    } else {
                        assert(buff@[base.len() + (j - base.len())] == payload@[j - base.len()] ^ k@[(j - base.len()) % 4]);
                    }
                }
                assert(buff@ =~= head + k@ + apply_mask(payload@, k@));
            },
            None => {
                buff.extend_from_slice(payload);
                assert(buff@ =~= head + payload@);
            },
        }
        buff
    }
}


/// The payload of a close frame: the code big-endian, then the reason; `Invalid`
/// when the reason is longer than 123 bytes.
pub fn close_payload(code: u16, reason: &[u8]) -> (r: Result<Vec<u8>, crate::shared::LibError>)
    ensures
        reason@.len() <= 123 ==> (r matches Ok(p) && p@ == seq![(code / 256) as u8, (code % 256) as u8] + reason@),
        reason@.len() > 123 ==> (r matches Err(crate::shared::LibError::Invalid)),
{
    if reason.len() > 123 {
        return Err(crate::shared::LibError::Invalid);
    }
    let mut p: Vec<u8> = Vec::new();
    p.push((code / 256) as u8);
    p.push((code % 256) as u8);
    p.extend_from_slice(reason);
    assert(p@ =~= seq![(code / 256) as u8, (code % 256) as u8] + reason@);
    Ok(p)
}

/// A control frame (opcode 8 to 15) with its payload: refused with `Invalid` when
/// the payload is over 125 bytes; always final.
pub fn control_frame(opcode: u8, mask: Option<&[u8]>, payload: &[u8]) -> (r: Result<Vec<u8>, crate::shared::LibError>)
    ensures
        payload@.len() <= 125 ==> (r matches Ok(f) && f@ == ws_create_spec(true, 0, opcode, match mask {
            Some(m) => Some(m@),
            None => None,
        }, payload@)),
        payload@.len() > 125 ==> (r matches Err(crate::shared::LibError::Invalid)),
{
    if payload.len() > 125 {
        return Err(crate::shared::LibError::Invalid);
    }
    Ok(WebSocketFrame::create(true, 0, opcode, mask, payload))
}

/// Whether a received frame breaks the rules for control frames: over 125 bytes
/// of payload, or not final.
pub fn control_frame_invalid(frame: &WebSocketFrame) -> (r: bool)
    requires
        frame.wf(),
    ensures
        r == (frame.opcode_byte >= 8 && (!frame.fin || ws_payload_len(frame.source@) > 125)),
{
    frame.opcode_byte >= 8 && (!frame.fin || frame.payload.end - frame.payload.start > 125)
}

/// The size of a frame header (extended length and mask included) announced by its
/// first two bytes.
pub fn header_size(b0: u8, b1: u8) -> (r: usize)
    ensures
        r == ws_header_len(seq![b0, b1]) + if b1 >= 128 { 4nat } else { 0nat },
{
    let len = b1 % 128;
    let base: usize = if len == 126 {
        4
    } else if len == 127 {
        10
    } else {
        2
    };
    if b1 >= 128 { base + 4 } else { base }
}

/// The payload length announced by a whole frame header.
pub fn payload_size(header: &[u8]) -> (r: u64)
    requires
        header@.len() >= 2,
        header@.len() >= ws_header_len(header@),
    ensures
        r as nat == ws_payload_len(header@),
{
    let len = header[1] % 128;
    if len == 126 {
        read_be(header, 2, 4)
    } else if len == 127 {
        read_be(header, 2, 10)
    } else {
        len as u64
    }
}
/// A frame made by `create` with a four-byte mask parses back, is masked with that
/// mask, and unmasks to the original payload.
pub proof fn lemma_unmask_create(fin: bool, rsv: u8, opcode: u8, m: Seq<u8>, p: Seq<u8>)
    requires
        m.len() == 4,
        p.len() < pow2(64),
    ensures
        ({
            let s = ws_create_spec(fin, rsv, opcode, Some(m), p);
            &&& ws_frame_ok(s)
            &&& ws_masked(s)
            &&& s.subrange(ws_header_len(s) as int, ws_header_len(s) + 4int) == m
            &&& ws_payload_len(s) == p.len()
            &&& apply_mask(s.subrange(ws_payload_start(s) as int, (ws_payload_start(s) + ws_payload_len(s)) as int), m) == p
        }),
{
    let s = ws_create_spec(fin, rsv, opcode, Some(m), p);
    let n = p.len();
    lemma2_to64();
    lemma2_to64_rest();
    let lb = length_bytes(n, 128);
    let hl: int = if n > 65535 { 10 } else if n > 125 { 4 } else { 2 };
    if n > 65535 {
        lemma_be_round_trip(n, 8);
        assert(s.subrange(2, 10) =~= be_bytes(n, 8));
    } else if n > 125 {
        lemma_be_round_trip(n, 2);
        assert(s.subrange(2, 4) =~= be_bytes(n, 2));
    }
    assert(len_field(s) == if n > 65535 { 127 } else if n > 125 { 126 } else { n });
    assert(ws_header_len(s) == hl);
    assert(s.subrange(hl, hl + 4) =~= m);
    let pay = s.subrange(hl + 4, hl + 4 + n);
    assert(pay =~= apply_mask(p, m));
    assert forall|i: int| 0 <= i < n implies #[trigger] apply_mask(pay, m)[i] == p[i] by {
        let a = p[i];
        let b = m[i % 4];
        assert((a ^ b) ^ b == a) by (bit_vector);
    }
    assert(apply_mask(pay, m) =~= p);
}

} // verus!
