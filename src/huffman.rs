use vstd::prelude::*;
use vstd::arithmetic::power2::pow2;
use vstd::arithmetic::power2::lemma_pow2_strictly_increases;
use vstd::arithmetic::power2::lemma2_to64;
use vstd::arithmetic::power2::lemma_pow2_unfold;
use vstd::bits::lemma_u32_shr_is_div;
use vstd::bits::lemma_u8_shr_is_div;
use crate::huffman_table::huffman_table;
use crate::huffman_table::rfc_code;

verus! {

/// Symbol 256 of a Huffman table is the end-of-string marker.
pub const EOS_SYMBOL: usize = 256;

#[derive(Debug, Clone, Copy, PartialEq, Eq, Structural)]
pub enum Symbol {
    Symbol(u8),
    EndOfString,
}

impl Symbol {
    /// The symbol with the given table index.
    pub fn from(value: usize) -> (r: Symbol)
        ensures
            value == 256 ==> r == Symbol::EndOfString,
            value != 256 ==> r == Symbol::Symbol(value as u8),
    {
        if value == 256 {
            Symbol::EndOfString
        } else {
            Symbol::Symbol(value as u8)
        }
    }
}

#[derive(Debug, Clone, Copy, PartialEq, Eq, Structural)]
pub enum HuffmanError {
    InvalidCodeTable,
    PaddingTooLarge,
    InvalidPadding,
    EOSInString,
}

/// The `len` low bits of `code`, most significant first.
pub open spec fn code_bits(code: nat, len: nat) -> Seq<bool> {
    Seq::new(len, |j: int| (code / pow2((len - 1 - j) as nat)) % 2 == 1)
}

/// The bits of a byte string, most significant bit of each byte first.
pub open spec fn bits_of(buf: Seq<u8>) -> Seq<bool> {
    Seq::new(8 * buf.len(), |k: int| (buf[k / 8] as nat / pow2((7 - k % 8) as nat)) % 2 == 1)
}

/// The number whose binary digits, most significant first, are `bits`.
pub open spec fn bits_value(bits: Seq<bool>) -> nat
    decreases bits.len(),
{
    if bits.len() == 0 {
        0
    } else {
        bits_value(bits.drop_last()) * 2 + (if bits.last() { 1nat } else { 0nat })
    }
}

/// Bytes packed from a bit string whose length is a multiple of eight.
pub open spec fn pack_bits(bits: Seq<bool>) -> Seq<u8>
    decreases bits.len(),
{
    if bits.len() < 8 {
        seq![]
    } else {
        pack_bits(bits.subrange(0, bits.len() - 8)).push(
            bits_value(bits.subrange(bits.len() - 8, bits.len() as int)) as u8,
        )
    }
}

/// Number of one bits that complete `n` bits to a whole number of bytes.
pub open spec fn pad_len(n: nat) -> nat {
    ((8 - n % 8) % 8) as nat
}

pub open spec fn ones(n: nat) -> Seq<bool> {
    Seq::new(n, |i: int| true)
}

/// Sum of the code lengths of the symbols of `s`.
pub open spec fn code_len_sum(lens: Seq<u8>, s: Seq<u8>) -> nat
    decreases s.len(),
{
    if s.len() == 0 {
        0
    } else {
        code_len_sum(lens, s.drop_last()) + lens[s.last() as int] as nat
    }
}

/// The first symbol whose code is `code` on `len` bits.
pub open spec fn find_symbol(codes: Seq<u32>, lens: Seq<u8>, len: nat, code: nat, i: nat) -> Option<nat>
    decreases codes.len() - i,
{
    if i >= codes.len() || i >= lens.len() {
        None
    } else if lens[i as int] as nat == len && codes[i as int] as nat == code {
        Some(i)
    } else {
        find_symbol(codes, lens, len, code, i + 1)
    }
}

#[derive(Debug)]
pub struct Huffman {
    pub code_from_symbol: Vec<u32>,
    pub len_from_symbol: Vec<u8>,
    pub eos: (u32, u8),
}

impl Huffman {
    pub open spec fn wf(&self) -> bool {
        &&& self.code_from_symbol@.len() == 257
        &&& self.len_from_symbol@.len() == 257
        &&& self.eos == (self.code_from_symbol@[256], self.len_from_symbol@[256])
    }

    /// The bits that encode `s`, before padding.
    pub open spec fn encode_bits(&self, s: Seq<u8>) -> Seq<bool>
        decreases s.len(),
    {
        if s.len() == 0 {
            seq![]
        } else {
            self.encode_bits(s.drop_last()) + code_bits(
                self.code_from_symbol@[s.last() as int] as nat,
                self.len_from_symbol@[s.last() as int] as nat,
            )
        }
    }

    /// Encoded form of `s`: its code bits padded with ones to whole bytes.
    pub open spec fn encode_spec(&self, s: Seq<u8>) -> Seq<u8> {
        let bits = self.encode_bits(s);
        pack_bits(bits + ones(pad_len(bits.len())))
    }

    /// Whether the `len` bits of `cur` are the leading bits of the EOS code.
    pub open spec fn is_eos_prefix(&self, cur: nat, len: nat) -> bool {
        len <= self.eos.1 && cur == self.eos.0 as nat / pow2((self.eos.1 - len) as nat)
    }

    /// Outcome of decoding `bits` from position `i`, with `len` bits `cur` of a code
    /// already read and `out` decoded so far.
    pub open spec fn decode_from(&self, bits: Seq<bool>, i: nat, cur: nat, len: nat, out: Seq<u8>) -> Result<Seq<u8>, HuffmanError>
        decreases bits.len() - i,
    {
        if i >= bits.len() {
            if len > 7 {
                Err(HuffmanError::PaddingTooLarge)
            } else if !self.is_eos_prefix(cur, len) {
                Err(HuffmanError::InvalidPadding)
            } else {
                Ok(out)
            }
        } else {
            let cur2 = cur * 2 + (if bits[i as int] { 1nat } else { 0nat });
            let len2 = len + 1;
            match find_symbol(self.code_from_symbol@, self.len_from_symbol@, len2, cur2, 0) {
                Some(sym) => if sym == 256 {
                    Err(HuffmanError::EOSInString)
                } else {
                    self.decode_from(bits, i + 1, 0, 0, out.push(sym as u8))
                },
                None => if len2 >= 32 {
                    Err(HuffmanError::PaddingTooLarge)
                } else {
                    self.decode_from(bits, i + 1, cur2, len2, out)
                },
            }
        }
    }

    pub open spec fn decode_spec(&self, buf: Seq<u8>) -> Result<Seq<u8>, HuffmanError> {
        self.decode_from(bits_of(buf), 0, 0, 0, seq![])
    }

    /// The decoder and encoder for the code of RFC 7541 Appendix B.
    pub fn new() -> (r: Self)
        ensures
            r.wf(),
            forall|i: int| 0 <= i < 257 ==> (#[trigger] r.code_from_symbol@[i], r.len_from_symbol@[i]) == rfc_code(i as usize),
    {
        let table = huffman_table();
        let mut code_from_symbol: Vec<u32> = Vec::new();
        let mut len_from_symbol: Vec<u8> = Vec::new();
        let mut i: usize = 0;
        while i < 257
            invariant
                i <= 257,
                table@.len() == 257,
                forall|k: int| 0 <= k < 257 ==> #[trigger] table@[k] == rfc_code(k as usize),
                code_from_symbol@.len() == i,
                len_from_symbol@.len() == i,
                forall|k: int| 0 <= k < i ==> (#[trigger] code_from_symbol@[k], len_from_symbol@[k]) == table@[k],
            decreases 257 - i,
        {
            code_from_symbol.push(table[i].0);
            len_from_symbol.push(table[i].1);
            i += 1;
        }
        let eos = (code_from_symbol[256], len_from_symbol[256]);
        Huffman { code_from_symbol, len_from_symbol, eos }
    }

    /// A coder for the given table of `(code, length)` by symbol; `None` unless it has
    /// exactly 257 entries.
    pub fn from(table: &[(u32, u8)]) -> (r: Option<Self>)
        ensures
            table@.len() != 257 <==> r.is_none(),
            r matches Some(h) ==> h.wf() && forall|i: int| 0 <= i < 257 ==>
                (#[trigger] h.code_from_symbol@[i], h.len_from_symbol@[i]) == table@[i],
    {
        if table.len() != 257 {
            return None;
        }
        let mut code_from_symbol: Vec<u32> = Vec::new();
        let mut len_from_symbol: Vec<u8> = Vec::new();
        let mut i: usize = 0;
        while i < 257
            invariant
                i <= 257,
                table@.len() == 257,
                code_from_symbol@.len() == i,
                len_from_symbol@.len() == i,
                forall|k: int| 0 <= k < i ==> (#[trigger] code_from_symbol@[k], len_from_symbol@[k]) == table@[k],
            decreases 257 - i,
        {
            code_from_symbol.push(table[i].0);
            len_from_symbol.push(table[i].1);
            i += 1;
        }
        let eos = (code_from_symbol[256], len_from_symbol[256]);
        Some(Huffman { code_from_symbol, len_from_symbol, eos })
    }

    fn find(&self, len: u8, code: u64) -> (r: Option<usize>)
        requires
            self.wf(),
        ensures
            r matches Some(s) ==> s < 257 && find_symbol(self.code_from_symbol@, self.len_from_symbol@, len as nat, code as nat, 0) == Some(s as nat),
            r is None ==> find_symbol(self.code_from_symbol@, self.len_from_symbol@, len as nat, code as nat, 0) is None,
    {
        let mut i: usize = 0;
        while i < 257
            invariant
                self.wf(),
                i <= 257,
                find_symbol(self.code_from_symbol@, self.len_from_symbol@, len as nat, code as nat, 0)
                    == find_symbol(self.code_from_symbol@, self.len_from_symbol@, len as nat, code as nat, i as nat),
            decreases 257 - i,
        {
            if self.len_from_symbol[i] == len && self.code_from_symbol[i] as u64 == code {
                return Some(i);
            }
            i += 1;
        }
        None
    }

    /// Decodes a Huffman-coded string (RFC 7541 section 5.2).
    pub fn decode(&self, buf: &[u8]) -> (r: Result<Vec<u8>, HuffmanError>)
        requires
            self.wf(),
        ensures
            r matches Ok(v) ==> self.decode_spec(buf@) == Ok::<Seq<u8>, HuffmanError>(v@),
            r matches Err(e) ==> self.decode_spec(buf@) == Err::<Seq<u8>, HuffmanError>(e),
    {
        let ghost bits = bits_of(buf@);
        proof {
            lemma2_to64();
        }
        let mut res: Vec<u8> = Vec::new();
        let mut cur: u64 = 0;
        let mut len: u8 = 0;
        let mut i: usize = 0;
        while i < buf.len()
            invariant
                self.wf(),
                i <= buf@.len(),
                bits == bits_of(buf@),
                len < 32,
                (cur as nat) < pow2(len as nat),
                self.decode_spec(buf@) == self.decode_from(bits, (8 * i) as nat, cur as nat, len as nat, res@),
            decreases buf@.len() - i,
        {
            let byte = buf[i];
            let mut j: u8 = 0;
            while j < 8
                invariant
                    self.wf(),
                    i < buf@.len(),
                    byte == buf@[i as int],
                    j <= 8,
                    bits == bits_of(buf@),
                    len < 32,
                    (cur as nat) < pow2(len as nat),
                    self.decode_spec(buf@) == self.decode_from(bits, (8 * i + j) as nat, cur as nat, len as nat, res@),
                decreases 8 - j,
            {
                proof {
                    lemma_u8_shr_is_div(byte, (7 - j) as u8);
                    lemma_pow2_unfold((len + 1) as nat);
                    lemma_pow2_le(len as nat, 31);
                    lemma2_to64();
                }
                let bit = (byte >> (7 - j)) % 2 == 1;
                assert(bits[(8 * i + j) as int] == bit);
                cur = cur * 2 + if bit { 1 } else { 0 };
                len = len + 1;
                match self.find(len, cur) {
                    Some(sym) => {
                        if sym == EOS_SYMBOL {
                            return Err(HuffmanError::EOSInString);
                        }
                        res.push(sym as u8);
                        cur = 0;
                        len = 0;
                        proof {
                            lemma2_to64();
                        }
                    },
                    None => {
                        if len >= 32 {
                            return Err(HuffmanError::PaddingTooLarge);
                        }
                    },
                }
                j += 1;
            }
            i += 1;
        }
        if len > 7 {
            return Err(HuffmanError::PaddingTooLarge);
        }
        if len > self.eos.1 {
            return Err(HuffmanError::InvalidPadding);
        }
        let eos_prefix = shr_u32(self.eos.0, self.eos.1 - len);
        if eos_prefix as u64 != cur {
            return Err(HuffmanError::InvalidPadding);
        }
        Ok(res)
    }

    /// Encodes `buf` with the code, padding the last byte with the leading
    /// (all-one) bits of EOS.
    pub fn encode(&self, buf: &[u8]) -> (r: Vec<u8>)
        requires
            self.wf(),
        ensures
            r@ == self.encode_spec(buf@),
            8 * r@.len() == code_len_sum(self.len_from_symbol@, buf@) + pad_len(code_len_sum(self.len_from_symbol@, buf@)),
    {
        let mut out: Vec<u8> = Vec::new();
        let mut cur: u32 = 0;
        let mut n: u8 = 0;
        let ghost mut bits: Seq<bool> = seq![];
        proof {
            lemma2_to64();
            assert(bits.subrange(0, 0) =~= Seq::<bool>::empty());
        }
        let mut i: usize = 0;
        while i < buf.len()
            invariant
                self.wf(),
                i <= buf@.len(),
                bits == self.encode_bits(buf@.subrange(0, i as int)),
                packing(out@, cur, n, bits),
            decreases buf@.len() - i,
        {
            let sym = buf[i] as usize;
            let code = self.code_from_symbol[sym];
            let len = self.len_from_symbol[sym];
            let ghost before = bits;
            let mut j: u8 = 0;
            while j < len
                invariant
                    j <= len,
                    bits == before + code_bits(code as nat, len as nat).subrange(0, j as int),
                    packing(out@, cur, n, bits),
                decreases len - j,
            {
                let shift: u8 = len - 1 - j;
                let bit = if shift >= 32 {
                    false
                } else {
                    proof {
                        lemma_u32_shr_is_div(code, shift as u32);
                    }
                    (code >> (shift as u32)) % 2 == 1
                };
                proof {
                    if shift >= 32 {
                        lemma_pow2_big(code as nat, shift as nat);
                    }
                }
                push_bit(&mut out, &mut cur, &mut n, bit, Ghost(bits));
                proof {
                    bits = bits.push(bit);
                    assert(bits =~= before + code_bits(code as nat, len as nat).subrange(0, j + 1));
                }
                j += 1;
            }
            proof {
                let t = buf@.subrange(0, i + 1);
                assert(t.drop_last() =~= buf@.subrange(0, i as int));
                assert(code_bits(code as nat, len as nat).subrange(0, len as int) =~= code_bits(code as nat, len as nat));
            }
            i += 1;
        }
        assert(buf@.subrange(0, buf@.len() as int) =~= buf@);
        let ghost body = bits;
        proof {
            lemma_encode_bits_len(self, buf@);
        }
        if n > 0 {
            let pad: u8 = 8 - n;
            let mut k: u8 = 0;
            while k < pad
                invariant
                    k <= pad,
                    pad == pad_len(body.len()),
                    bits == body + ones(k as nat),
                    k < pad ==> packing(out@, cur, n, bits) && n as nat + pad - k == 8,
                    k == pad ==> packing(out@, cur, n, bits) && n == 0,
                decreases pad - k,
            {
                push_bit(&mut out, &mut cur, &mut n, true, Ghost(bits));
                proof {
                    bits = bits.push(true);
                    assert(bits =~= body + ones((k + 1) as nat));
                }
                k += 1;
            }
        } else {
            assert(body + ones(0) =~= body);
        }
        proof {
            assert(bits.subrange(0, (8 * out@.len()) as int) =~= bits);
        }
        out
    }
}

/// `out` holds the whole bytes of `bits`, and `cur` the `n` bits that follow them.
pub open spec fn packing(out: Seq<u8>, cur: u32, n: u8, bits: Seq<bool>) -> bool {
    &&& n < 8
    &&& bits.len() == 8 * out.len() + n
    &&& out == pack_bits(bits.subrange(0, (8 * out.len()) as int))
    &&& cur as nat == bits_value(bits.subrange((8 * out.len()) as int, bits.len() as int))
    &&& (cur as nat) < pow2(n as nat)
}

/// Appends one bit to a packing in progress.
fn push_bit(out: &mut Vec<u8>, cur: &mut u32, n: &mut u8, bit: bool, Ghost(bits): Ghost<Seq<bool>>)
    requires
        packing(old(out)@, *old(cur), *old(n), bits),
    ensures
        packing(final(out)@, *final(cur), *final(n), bits.push(bit)),
        *final(n) == (*old(n) + 1) % 8,
{
    let ghost nb = bits.push(bit);
    let ghost base: int = (8 * out@.len()) as int;
    proof {
        lemma2_to64();
        lemma_pow2_unfold((*n + 1) as nat);
        lemma_pow2_le(*n as nat, 7);
        let s = nb.subrange(base, nb.len() as int);
        assert(s.drop_last() =~= bits.subrange(base, bits.len() as int));
        assert(nb.subrange(0, base) =~= bits.subrange(0, base));
    }
    *cur = *cur * 2 + if bit { 1 } else { 0 };
    *n = *n + 1;
    if *n == 8 {
        proof {
            let t = nb.subrange(0, base + 8);
            assert(t.subrange(0, t.len() - 8) =~= nb.subrange(0, base));
            assert(t.subrange(t.len() - 8, t.len() as int) =~= nb.subrange(base, nb.len() as int));
        }
        out.push(*cur as u8);
        *cur = 0;
        *n = 0;
        proof {
            assert(nb.subrange((8 * out@.len()) as int, nb.len() as int) =~= Seq::<bool>::empty());
        }
    }
}

proof fn lemma_encode_bits_len(h: &Huffman, s: Seq<u8>)
    ensures
        h.encode_bits(s).len() == code_len_sum(h.len_from_symbol@, s),
    decreases s.len(),
{
    if s.len() > 0 {
        lemma_encode_bits_len(h, s.drop_last());
    }
}

proof fn lemma_pow2_big(code: nat, shift: nat)
    requires
        code < 0x1_0000_0000,
        shift >= 32,
    ensures
        (code / pow2(shift)) % 2 == 0,
{
    lemma_pow2_le(32, shift);
    lemma2_to64();
    vstd::arithmetic::div_mod::lemma_basic_div(code as int, pow2(shift) as int);
}

proof fn lemma_pow2_le(a: nat, b: nat)
    requires
        a <= b,
    ensures
        pow2(a) <= pow2(b),
{
    if a < b {
        lemma_pow2_strictly_increases(a, b);
    }
}

/// `x >> s`, zero once `s` reaches the width of `x`.
fn shr_u32(x: u32, s: u8) -> (r: u32)
    ensures
        r as nat == x as nat / pow2(s as nat),
{
    if s >= 32 {
        proof {
            lemma_pow2_le(32, s as nat);
            lemma2_to64();
            assert(x as nat / pow2(s as nat) == 0) by {
                vstd::arithmetic::div_mod::lemma_basic_div(x as int, pow2(s as nat) as int);
            }
        }
        0
    } else {
        proof {
            lemma_u32_shr_is_div(x, s as u32);
        }
        x >> (s as u32)
    }
}

} // verus!
