use vstd::prelude::*;
use vstd::arithmetic::power2::pow2;
use vstd::arithmetic::power2::lemma2_to64;
use vstd::arithmetic::power2::lemma_pow2_pos;
use vstd::arithmetic::power2::lemma_pow2_unfold;
use vstd::arithmetic::power2::lemma_pow2_adds;
use vstd::arithmetic::div_mod::lemma_div_denominator;
use vstd::arithmetic::div_mod::lemma_fundamental_div_mod;
use crate::huffman::bits_of;
use crate::huffman::bits_value;
use crate::huffman::code_bits;
use crate::huffman::find_symbol;
use crate::huffman::ones;
use crate::huffman::pack_bits;
use crate::huffman::pad_len;
use crate::huffman::Huffman;

verus! {

/// The code of `b` is a prefix of (or equal to) the code of `a`.
pub open spec fn is_prefix_code(h: &Huffman, b: int, a: int) -> bool {
    let la = h.len_from_symbol@[a] as nat;
    let lb = h.len_from_symbol@[b] as nat;
    lb <= la && h.code_from_symbol@[a] as nat / pow2((la - lb) as nat) == h.code_from_symbol@[b] as nat
}

/// A code that decodes without ambiguity: codes of 1 to 30 bits that fit their
/// length, none a prefix of another, and an EOS code of all ones.
pub open spec fn prefix_free(h: &Huffman) -> bool {
    &&& h.wf()
    &&& forall|a: int| 0 <= a < 257 ==> 1 <= #[trigger] h.len_from_symbol@[a] <= 30
    &&& forall|a: int| 0 <= a < 257 ==> (#[trigger] h.code_from_symbol@[a] as nat) < pow2(h.len_from_symbol@[a] as nat)
    &&& forall|a: int, b: int| 0 <= a < 257 && 0 <= b < 257 && a != b ==> !#[trigger] is_prefix_code(h, b, a)
    &&& h.eos.0 as nat == pow2(h.eos.1 as nat) - 1
}

impl Huffman {
    /// Whether the code is prefix-free in the sense of `prefix_free`.
    pub fn is_prefix_free(&self) -> (r: bool)
        requires
            self.wf(),
        ensures
            r ==> prefix_free(self),
    {
        proof {
            lemma2_to64();
        }
        let mut a: usize = 0;
        while a < 257
            invariant
                self.wf(),
                a <= 257,
                forall|x: int| 0 <= x < a ==> 1 <= #[trigger] self.len_from_symbol@[x] <= 30,
                forall|x: int| 0 <= x < a ==> (#[trigger] self.code_from_symbol@[x] as nat) < pow2(self.len_from_symbol@[x] as nat),
            decreases 257 - a,
        {
            let l = self.len_from_symbol[a];
            if l < 1 || l > 30 {
                return false;
            }
            let limit = pow2_u64(l as u32);
            if self.code_from_symbol[a] as u64 >= limit {
                return false;
            }
            a += 1;
        }
        let mut a: usize = 0;
        while a < 257
            invariant
                self.wf(),
                a <= 257,
                forall|x: int| 0 <= x < 257 ==> 1 <= #[trigger] self.len_from_symbol@[x] <= 30,
                forall|x: int, y: int| 0 <= x < a && 0 <= y < 257 && x != y ==> !#[trigger] is_prefix_code(self, y, x),
            decreases 257 - a,
        {
            let mut b: usize = 0;
            while b < 257
                invariant
                    self.wf(),
                    a < 257,
                    b <= 257,
                    forall|x: int| 0 <= x < 257 ==> 1 <= #[trigger] self.len_from_symbol@[x] <= 30,
                    forall|x: int, y: int| 0 <= x < a && 0 <= y < 257 && x != y ==> !#[trigger] is_prefix_code(self, y, x),
                    forall|y: int| 0 <= y < b && y != a ==> !#[trigger] is_prefix_code(self, y, a as int),
                decreases 257 - b,
            {
                if a != b {
                    let la = self.len_from_symbol[a];
                    let lb = self.len_from_symbol[b];
                    if lb <= la {
                        let d = pow2_u64((la - lb) as u32);
                        if self.code_from_symbol[a] as u64 / d == self.code_from_symbol[b] as u64 {
                            return false;
                        }
                    }
                }
                b += 1;
            }
            a += 1;
        }
        let e = pow2_u64(self.eos.1 as u32);
        if self.eos.1 > 30 || self.eos.0 as u64 != e - 1 {
            return false;
        }
        true
    }
}

/// `2^n` for `n` up to 32.
fn pow2_u64(n: u32) -> (r: u64)
    requires
        n <= 32,
    ensures
        r as nat == pow2(n as nat),
        r >= 1,
{
    let mut r: u64 = 1;
    let mut i: u32 = 0;
    proof {
        lemma2_to64();
    }
    while i < n
        invariant
            i <= n,
            n <= 32,
            r as nat == pow2(i as nat),
        decreases n - i,
    {
        proof {
            lemma_pow2_unfold((i + 1) as nat);
            vstd::arithmetic::power2::lemma_pow2_strictly_increases((i + 1) as nat, 33);
            lemma2_to64();
        }
        r = r * 2;
        i += 1;
    }
    proof {
        lemma_pow2_pos(n as nat);
    }
    r
}

/// `bits_value` reads its digits back: digit `j` of `n` is bit `j`, most
/// significant first, and the value is below `2^n`.
proof fn lemma_bits_value_digit(b: Seq<bool>, j: int)
    requires
        0 <= j < b.len(),
    ensures
        (bits_value(b) / pow2((b.len() - 1 - j) as nat)) % 2 == (if b[j] { 1nat } else { 0nat }),
    decreases b.len(),
{
    lemma2_to64();
    let n = b.len();
    let v = bits_value(b.drop_last());
    let l: nat = if b.last() { 1 } else { 0 };
    assert(bits_value(b) == v * 2 + l);
    if j == n - 1 {
        assert(pow2(0) == 1);
        assert((v * 2 + l) / 1 % 2 == l) by (nonlinear_arith)
            requires l < 2;
    } else {
        lemma_bits_value_digit(b.drop_last(), j);
        assert(b.drop_last()[j] == b[j]);
        let e = (n - 2 - j) as nat;
        lemma_pow2_adds(1, e);
        lemma_pow2_pos(e);
        lemma_div_denominator((v * 2 + l) as int, 2, pow2(e) as int);
        assert((v * 2 + l) / 2 == v) by (nonlinear_arith)
            requires l < 2;
        assert(pow2((n - 1 - j) as nat) == 2 * pow2(e));
    }
}

proof fn lemma_bits_value_bound(b: Seq<bool>)
    ensures
        bits_value(b) < pow2(b.len()),
    decreases b.len(),
{
    lemma2_to64();
    if b.len() > 0 {
        lemma_bits_value_bound(b.drop_last());
        lemma_pow2_unfold(b.len());
    }
}

proof fn lemma_pack_index(b: Seq<bool>, m: int)
    requires
        b.len() % 8 == 0,
        0 <= m < b.len() / 8,
    ensures
        pack_bits(b).len() == b.len() / 8,
        pack_bits(b)[m] == bits_value(b.subrange(8 * m, 8 * m + 8)) as u8,
    decreases b.len(),
{
    let t = b.subrange(0, b.len() - 8);
    if m < b.len() / 8 - 1 {
        lemma_pack_index(t, m);
        assert(t.subrange(8 * m, 8 * m + 8) =~= b.subrange(8 * m, 8 * m + 8));
    } else {
        if t.len() > 0 {
            lemma_pack_index(t, 0);
        } else {
            assert(pack_bits(t).len() == 0);
        }
    }
}

/// Unpacking packed bits gives them back.
pub proof fn lemma_bits_of_pack(b: Seq<bool>)
    requires
        b.len() % 8 == 0,
    ensures
        bits_of(pack_bits(b)) == b,
{
    if b.len() == 0 {
        assert(bits_of(pack_bits(b)) =~= b);
    } else {
        lemma_pack_index(b, 0);
        assert forall|k: int| 0 <= k < b.len() implies #[trigger] bits_of(pack_bits(b))[k] == b[k] by {
            let m = k / 8;
            let j = k % 8;
            lemma_pack_index(b, m);
            let w = b.subrange(8 * m, 8 * m + 8);
            lemma_bits_value_bound(w);
            lemma2_to64();
            lemma_bits_value_digit(w, j);
            assert(w[j] == b[k]);
        }
        assert(bits_of(pack_bits(b)) =~= b);
    }
}

proof fn lemma_find_some(codes: Seq<u32>, lens: Seq<u8>, len: nat, code: nat, i: nat)
    ensures
        find_symbol(codes, lens, len, code, i) matches Some(x) ==> i <= x < codes.len() && x < lens.len()
            && lens[x as int] as nat == len && codes[x as int] as nat == code,
        find_symbol(codes, lens, len, code, i) is None ==> forall|x: int| i <= x < codes.len() && x < lens.len()
            ==> !(lens[x] as nat == len && codes[x] as nat == code),
    decreases codes.len() - i,
{
    if i < codes.len() && i < lens.len() {
        lemma_find_some(codes, lens, len, code, i + 1);
    }
}

/// Reading one codeword of symbol `a` (not EOS) at `i` yields `a` and moves past it.
proof fn lemma_decode_symbol(h: &Huffman, bits: Seq<bool>, i: nat, a: int, out: Seq<u8>)
    requires
        prefix_free(h),
        0 <= a < 256,
        i + h.len_from_symbol@[a] <= bits.len(),
        bits.subrange(i as int, i + h.len_from_symbol@[a]) == code_bits(h.code_from_symbol@[a] as nat, h.len_from_symbol@[a] as nat),
    ensures
        h.decode_from(bits, i, 0, 0, out) == h.decode_from(bits, (i + h.len_from_symbol@[a]) as nat, 0, 0, out.push(a as u8)),
{
    let l = h.len_from_symbol@[a] as nat;
    let c = h.code_from_symbol@[a] as nat;
    lemma2_to64();
    assert(c / pow2(l) == 0) by {
        vstd::arithmetic::div_mod::lemma_basic_div(c as int, pow2(l) as int);
    }
    lemma_decode_prefix(h, bits, i, a, out, 0);
}

/// After `k` bits of the codeword of `a`, the decoder holds them and goes on to `a`.
proof fn lemma_decode_prefix(h: &Huffman, bits: Seq<bool>, i: nat, a: int, out: Seq<u8>, k: nat)
    requires
        prefix_free(h),
        0 <= a < 256,
        k < h.len_from_symbol@[a],
        i + h.len_from_symbol@[a] <= bits.len(),
        bits.subrange(i as int, i + h.len_from_symbol@[a]) == code_bits(h.code_from_symbol@[a] as nat, h.len_from_symbol@[a] as nat),
    ensures
        h.decode_from(bits, i + k, h.code_from_symbol@[a] as nat / pow2((h.len_from_symbol@[a] - k) as nat), k, out)
            == h.decode_from(bits, (i + h.len_from_symbol@[a]) as nat, 0, 0, out.push(a as u8)),
    decreases h.len_from_symbol@[a] - k,
{
    let l = h.len_from_symbol@[a] as nat;
    let c = h.code_from_symbol@[a] as nat;
    let cur = c / pow2((l - k) as nat);
    let bit = bits[(i + k) as int];
    assert(bit == code_bits(c, l)[k as int]) by {
        assert(bits.subrange(i as int, (i + l) as int)[k as int] == bits[(i + k) as int]);
    }
    let e = (l - k - 1) as nat;
    let next = c / pow2(e);
    lemma2_to64();
    lemma_pow2_adds(e, 1);
    lemma_div_denominator(c as int, pow2(e) as int, 2);
    lemma_fundamental_div_mod(next as int, 2);
    assert(cur == next / 2);
    let cur2 = cur * 2 + (if bit { 1nat } else { 0nat });
    assert(cur2 == next);
    let found = find_symbol(h.code_from_symbol@, h.len_from_symbol@, k + 1, cur2, 0);
    lemma_find_some(h.code_from_symbol@, h.len_from_symbol@, k + 1, cur2, 0);
    if k + 1 < l {
        match found {
            Some(x) => {
                assert(is_prefix_code(h, x as int, a));
                assert(x as int != a);
            },
            None => {},
        }
        assert(found is None);
        lemma_decode_prefix(h, bits, i, a, out, k + 1);
    } else {
        assert(e == 0);
        assert(pow2(e) == 1);
        assert(c / 1 == c);
        assert(next == c);
        match found {
            Some(x) => {
                if x as int != a {
                    assert(is_prefix_code(h, x as int, a));
                }
            },
            None => {
                assert(h.len_from_symbol@[a] as nat == k + 1 && h.code_from_symbol@[a] as nat == cur2);
            },
        }
        assert(found == Some(a as nat));
    }
}

/// All-one padding shorter than a byte decodes to nothing.
proof fn lemma_decode_padding(h: &Huffman, bits: Seq<bool>, i: nat, k: nat, out: Seq<u8>)
    requires
        prefix_free(h),
        i + k <= bits.len(),
        bits.len() - i <= 7,
        forall|j: int| i <= j < bits.len() ==> bits[j],
        h.len_from_symbol@[256] >= 8,
    ensures
        h.decode_from(bits, i + k, (pow2(k) - 1) as nat, k, out) == Ok::<Seq<u8>, crate::huffman::HuffmanError>(out),
    decreases bits.len() - i - k,
{
    lemma2_to64();
    let el = h.eos.1 as nat;
    if i + k >= bits.len() {
        assert(k <= 7);
        lemma_pow2_adds(k, (el - k) as nat);
        assert(pow2(el) - 1 == pow2(k) * pow2((el - k) as nat) - 1);
        lemma_pow2_pos((el - k) as nat);
        assert((pow2(el) - 1) as nat / pow2((el - k) as nat) == (pow2(k) - 1) as nat) by {
            let q = pow2((el - k) as nat);
            let p = pow2(k);
            assert((p * q - 1) as nat / q == (p - 1) as nat) by (nonlinear_arith)
                requires q >= 1, p >= 1;
        }
    } else {
        let cur = (pow2(k) - 1) as nat;
        lemma_pow2_unfold(k + 1);
        lemma_pow2_pos(k);
        let cur2 = cur * 2 + 1;
        assert(cur2 == (pow2(k + 1) - 1) as nat);
        let found = find_symbol(h.code_from_symbol@, h.len_from_symbol@, k + 1, cur2, 0);
        lemma_find_some(h.code_from_symbol@, h.len_from_symbol@, k + 1, cur2, 0);
        match found {
            Some(x) => {
            lemma_pow2_adds(k + 1, (el - k - 1) as nat);
            lemma_pow2_pos((el - k - 1) as nat);
            let q = pow2((el - k - 1) as nat);
            let p = pow2(k + 1);
            assert((p * q - 1) as nat / q == (p - 1) as nat) by (nonlinear_arith)
                requires q >= 1, p >= 1;
            assert(is_prefix_code(h, x as int, 256));
            },
            None => {},
        }
        assert(found is None);
        lemma_decode_padding(h, bits, i, k + 1, out);
    }
}

/// Decoding the codewords of `s` from `i`, followed by padding, yields `s`.
proof fn lemma_decode_all(h: &Huffman, bits: Seq<bool>, i: nat, s: Seq<u8>, out: Seq<u8>)
    requires
        prefix_free(h),
        h.len_from_symbol@[256] >= 8,
        i + h.encode_bits(s).len() <= bits.len(),
        bits.subrange(i as int, (i + h.encode_bits(s).len()) as int) == h.encode_bits(s),
        bits.len() - i - h.encode_bits(s).len() <= 7,
        forall|j: int| i + h.encode_bits(s).len() <= j < bits.len() ==> bits[j],
    ensures
        h.decode_from(bits, i, 0, 0, out) == Ok::<Seq<u8>, crate::huffman::HuffmanError>(out + s),
    decreases s.len(),
{
    lemma2_to64();
    if s.len() == 0 {
        assert(pow2(0) == 1);
        lemma_decode_padding(h, bits, i, 0, out);
        assert(out + s =~= out);
    } else {
        let a = s[0] as int;
        let t = s.drop_first();
        lemma_encode_bits_front(h, s);
        let cb = code_bits(h.code_from_symbol@[a] as nat, h.len_from_symbol@[a] as nat);
        let l = h.len_from_symbol@[a] as nat;
        assert(h.encode_bits(s) == cb + h.encode_bits(t));
        assert(bits.subrange(i as int, (i + l) as int) =~= cb) by {
            assert forall|j: int| 0 <= j < l implies bits.subrange(i as int, (i + l) as int)[j] == cb[j] by {
                assert(bits[i + j] == bits.subrange(i as int, (i + h.encode_bits(s).len()) as int)[j]);
            }
        }
        lemma_decode_symbol(h, bits, i, a, out);
        let et = h.encode_bits(t);
        assert(bits.subrange((i + l) as int, (i + l + et.len()) as int) =~= et) by {
            assert forall|j: int| 0 <= j < et.len() implies bits.subrange((i + l) as int, (i + l + et.len()) as int)[j] == et[j] by {
                assert(bits[i + l + j] == bits.subrange(i as int, (i + h.encode_bits(s).len()) as int)[l + j]);
            }
        }
        lemma_decode_all(h, bits, (i + l) as nat, t, out.push(a as u8));
        assert(out.push(a as u8) + t =~= out + s);
    }
}

proof fn lemma_encode_bits_front(h: &Huffman, s: Seq<u8>)
    requires
        s.len() > 0,
    ensures
        h.encode_bits(s) == code_bits(h.code_from_symbol@[s[0] as int] as nat, h.len_from_symbol@[s[0] as int] as nat)
            + h.encode_bits(s.drop_first()),
    decreases s.len(),
{
    if s.len() == 1 {
        assert(s.drop_first() =~= Seq::<u8>::empty());
        assert(s.drop_last() =~= Seq::<u8>::empty());
        assert(h.encode_bits(Seq::<u8>::empty()) == Seq::<bool>::empty());
        assert(s.last() == s[0]);
    } else {
        lemma_encode_bits_front(h, s.drop_last());
        assert(s.drop_last().drop_first() =~= s.drop_first().drop_last());
        assert(s.drop_last()[0] == s[0]);
        assert(s.drop_first().last() == s.last());
    }
}

/// Decoding what `encode` wrote gives back the original bytes, for any prefix-free
/// code whose EOS code has at least eight bits.
pub proof fn lemma_huffman_round_trip(h: &Huffman, s: Seq<u8>)
    requires
        prefix_free(h),
        h.len_from_symbol@[256] >= 8,
    ensures
        h.decode_spec(h.encode_spec(s)) == Ok::<Seq<u8>, crate::huffman::HuffmanError>(s),
{
    let e = h.encode_bits(s);
    let p = pad_len(e.len());
    let b = e + ones(p);
    assert(b.len() % 8 == 0);
    lemma_bits_of_pack(b);
    assert(b.subrange(0, e.len() as int) =~= e);
    lemma_decode_all(h, b, 0, s, seq![]);
    assert(Seq::<u8>::empty() + s =~= s);
}

} // verus!
