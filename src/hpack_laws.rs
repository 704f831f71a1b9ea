use vstd::prelude::*;
use vstd::arithmetic::power2::pow2;
use vstd::arithmetic::power2::lemma2_to64;
use vstd::arithmetic::power2::lemma2_to64_rest;
use crate::decoder::decode_all_spec;
use crate::decoder::decode_spec;
use crate::decoder::literal_spec;
use crate::decoder::lookup;
use crate::decoder::string_spec;
use crate::encoder::encode_all_spec;
use crate::encoder::encode_inserts;
use crate::encoder::encode_spec;
use crate::encoder::find_field;
use crate::encoder::find_name;
use crate::encoder::string_encode;
use crate::hpack::evicted;
use crate::hpack::Field;
use crate::hpack::HeaderType;
use crate::huffman::Huffman;
use crate::huffman_laws::lemma_huffman_round_trip;
use crate::huffman_laws::prefix_free;
use crate::integer::int_encode;
use crate::integer::lemma_int_round_trip;

verus! {

/// A length or index that the integer primitive carries both ways.
pub open spec fn fits(n: nat) -> bool {
    n <= 0xffff_ffff
}

/// A Huffman code that decodes what it encodes.
pub open spec fn sound_code(h: &Huffman) -> bool {
    prefix_free(h) && h.len_from_symbol@[256] >= 8
}

proof fn lemma_fits(n: nat, prefix: nat)
    requires
        fits(n),
        1 <= prefix <= 8,
    ensures
        n <= usize::MAX,
        n < pow2(prefix) - 1 + pow2(56),
{
    lemma2_to64();
    lemma2_to64_rest();
    vstd::arithmetic::power2::lemma_pow2_pos(prefix);
}

/// A string literal written by `write_string` reads back with `read_string`.
pub proof fn lemma_string_round_trip(h: &Huffman, pre: Seq<u8>, v: Seq<u8>, use_huff: Option<bool>, rest: Seq<u8>)
    requires
        sound_code(h),
        fits(v.len()),
        fits(h.encode_spec(v).len()),
    ensures
        string_spec(*h, pre + string_encode(*h, v, use_huff) + rest, pre.len() as int)
            == Some((v, (pre.len() + string_encode(*h, v, use_huff).len()) as int)),
{
    lemma2_to64();
    let huff = h.encode_spec(v);
    let coded = int_encode(huff.len(), 7, 0x80) + huff;
    let raw = int_encode(v.len(), 7, 0) + v;
    let enc = string_encode(*h, v, use_huff);
    let buf = pre + enc + rest;
    let p = pre.len() as int;
    if enc == coded {
        lemma_fits(huff.len(), 7);
        lemma_int_round_trip(pre, huff.len(), 7, 0x80, huff + rest);
        assert(pre + int_encode(huff.len(), 7, 0x80) + (huff + rest) =~= buf);
        let q = p + int_encode(huff.len(), 7, 0x80).len();
        assert(buf.subrange(q, q + huff.len()) =~= huff);
        assert(buf[p] == int_encode(huff.len(), 7, 0x80)[0]);
        assert(buf[p] as nat / 128 == 1);
        lemma_huffman_round_trip(h, v);
    } else {
        assert(enc == raw);
        lemma_fits(v.len(), 7);
        lemma_int_round_trip(pre, v.len(), 7, 0, v + rest);
        assert(pre + int_encode(v.len(), 7, 0) + (v + rest) =~= buf);
        let q = p + int_encode(v.len(), 7, 0).len();
        assert(buf.subrange(q, q + v.len()) =~= v);
        assert(buf[p] == int_encode(v.len(), 7, 0)[0]);
        assert(buf[p] as nat / 128 == 0);
    }
}

proof fn lemma_find_field_lookup(table: Seq<Field>, n: Seq<u8>, v: Seq<u8>, i: nat)
    ensures
        find_field(table, n, v, i) matches Some(k) ==> 1 <= k <= table.len() && lookup(table, k) == Some((n, v)),
    decreases table.len() - i,
{
    if i < table.len() {
        lemma_find_field_lookup(table, n, v, i + 1);
    }
}

proof fn lemma_find_name_lookup(table: Seq<Field>, n: Seq<u8>, i: nat)
    ensures
        find_name(table, n, i) matches Some(k) ==> 1 <= k <= table.len() && (lookup(table, k) matches Some(f) && f.0 == n),
    decreases table.len() - i,
{
    if i < table.len() {
        lemma_find_name_lookup(table, n, i + 1);
    }
}

/// The strings of a field fit the integer primitive in every representation.
pub open spec fn field_fits(h: &Huffman, f: Field) -> bool {
    &&& fits(f.0.len())
    &&& fits(f.1.len())
    &&& fits(h.encode_spec(f.0).len())
    &&& fits(h.encode_spec(f.1).len())
}

/// A literal with an N-bit index prefix, written after `pre`, reads back.
#[verifier::rlimit(80)]
proof fn lemma_literal_round_trip(table: Seq<Field>, h: &Huffman, pre: Seq<u8>, index: nat, prefix: nat, stat: u8,
    n: Seq<u8>, v: Seq<u8>, rest: Seq<u8>)
    requires
        sound_code(h),
        field_fits(h, (n, v)),
        fits(index),
        1 <= prefix <= 8,
        stat as nat % pow2(prefix) == 0,
        index == 0 || (lookup(table, index) matches Some(f) && f.0 == n),
    ensures
        ({
            let bytes = int_encode(index, prefix, stat) + (if index == 0 { string_encode(*h, n, None) } else { seq![] })
                + string_encode(*h, v, None);
            literal_spec(table, *h, pre + bytes + rest, prefix, pre.len() as int)
                == Some((n, v, (pre.len() + bytes.len()) as int))
        }),
{
    let ie = int_encode(index, prefix, stat);
    let ne = if index == 0 { string_encode(*h, n, None) } else { seq![] };
    let ve = string_encode(*h, v, None);
    let bytes = ie + ne + ve;
    let buf = pre + bytes + rest;
    lemma_fits(index, prefix);
    lemma_int_round_trip(pre, index, prefix, stat, ne + ve + rest);
    assert(pre + ie + (ne + ve + rest) =~= buf);
    let p1 = pre + ie;
    if index == 0 {
        lemma_string_round_trip(h, p1, n, None, ve + rest);
        assert(p1 + ne + (ve + rest) =~= buf);
    }
    let p2 = pre + ie + ne;
    lemma_string_round_trip(h, p2, v, None, rest);
    assert(p2 + ve + rest =~= buf);
}

/// One field encoded by `encode` and decoded by `decode` against the same tables
/// comes back, and both sides' dynamic tables change alike.
pub proof fn lemma_field_round_trip(st: Seq<Field>, dy: Seq<Field>, cap: nat, h: &Huffman, htype: HeaderType, n: Seq<u8>, v: Seq<u8>,
    pre: Seq<u8>, rest: Seq<u8>)
    requires
        sound_code(h),
        field_fits(h, (n, v)),
        fits(st.len() + dy.len()),
        htype == HeaderType::Indexed || htype == HeaderType::NotIndexed || htype == HeaderType::NeverIndexed,
    ensures
        encode_spec(st + dy, *h, htype, n, v, None) matches Ok(bytes) && bytes.len() > 0
            && decode_spec(st, dy, cap, *h, pre + bytes + rest, pre.len() as int) == Some((
                if find_field(st + dy, n, v, 0) is Some { HeaderType::Lookup } else { htype },
                n, v, (pre.len() + bytes.len()) as int,
                if encode_inserts(st + dy, htype, n, v) { evicted(seq![(n, v)] + dy, cap) } else { dy },
                cap,
            )),
{
    reveal(decode_spec);
    reveal(encode_spec);
    lemma2_to64();
    let table = st + dy;
    lemma_find_field_lookup(table, n, v, 0);
    lemma_find_name_lookup(table, n, 0);
    let p = pre.len() as int;
    match find_field(table, n, v, 0) {
        Some(i) => {
            let bytes = int_encode(i, 7, 0x80);
            let buf = pre + bytes + rest;
            lemma_fits(i, 7);
            lemma_int_round_trip(pre, i, 7, 0x80, rest);
            assert(buf[p] == bytes[0]);
            assert(buf[p] as nat / 128 == 1);
        },
        None => {
            let ve = string_encode(*h, v, None);
            match find_name(table, n, 0) {
                Some(i) => {
                    let (prefix, stat): (nat, u8) = if htype == HeaderType::Indexed {
                        (6, 0x40)
                    } else if htype == HeaderType::NotIndexed {
                        (4, 0)
                    } else {
                        (4, 0x10)
                    };
                    let ie = int_encode(i, prefix, stat);
                    lemma_fits(i, prefix);
                    lemma_literal_round_trip(table, h, pre, i, prefix, stat, n, v, rest);
                    lemma_int_round_trip(pre, i, prefix, stat, ve + rest);
                    assert(ie + seq![] + ve =~= ie + ve);
                    let buf = pre + (ie + ve) + rest;
                    assert(buf[p] == ie[0]);
                },
                None => {
                    let (prefix, stat): (nat, u8) = if htype == HeaderType::Indexed {
                        (6, 0x40)
                    } else if htype == HeaderType::NotIndexed {
                        (4, 0)
                    } else {
                        (4, 0x10)
                    };
                    let ie = int_encode(0, prefix, stat);
                    let ne = string_encode(*h, n, None);
                    lemma_literal_round_trip(table, h, pre, 0, prefix, stat, n, v, rest);
                    lemma_int_round_trip(pre, 0, prefix, stat, ne + ve + rest);
                    let buf = pre + (ie + ne + ve) + rest;
                    assert(buf[p] == ie[0]);
                },
            }
        },
    }
}

/// Decoding what `encode_all` (or `encode_all_indexed`) wrote, with a decoder whose
/// tables equal the encoder's, gives back the header list, and leaves the decoder's
/// dynamic table equal to the encoder's.
#[verifier::rlimit(60)]
pub proof fn lemma_hpack_round_trip(st: Seq<Field>, dy: Seq<Field>, cap: nat, h: &Huffman, htype: HeaderType, hs: Seq<Field>,
    pre: Seq<u8>)
    requires
        sound_code(h),
        htype == HeaderType::Indexed || htype == HeaderType::NotIndexed || htype == HeaderType::NeverIndexed,
        forall|i: int| 0 <= i < hs.len() ==> field_fits(h, #[trigger] hs[i]),
        fits(st.len() + dy.len() + hs.len()),
    ensures
        encode_all_spec(st, dy, cap, *h, htype, hs) matches Ok((bytes, d))
            && decode_all_spec(st, dy, cap, *h, pre + bytes, pre.len() as int) == Some((hs, d, cap)),
    decreases hs.len(),
{
    if hs.len() == 0 {
        assert(pre + Seq::<u8>::empty() =~= pre);
    } else {
        let (n, v) = hs[0];
        let table = st + dy;
        assert(field_fits(h, hs[0]));
        lemma_field_round_trip(st, dy, cap, h, htype, n, v, pre, seq![]);
        let dy2 = if encode_inserts(table, htype, n, v) { evicted(seq![(n, v)] + dy, cap) } else { dy };
        crate::hpack::lemma_evicted_size(seq![(n, v)] + dy, cap);
        let t = hs.drop_first();
        assert forall|i: int| 0 <= i < t.len() implies field_fits(h, #[trigger] t[i]) by {
            assert(t[i] == hs[i + 1]);
        }
        match encode_spec(table, *h, htype, n, v, None) {
            Ok(b) => {
                lemma_hpack_round_trip(st, dy2, cap, h, htype, t, pre + b);
                match encode_all_spec(st, dy2, cap, *h, htype, t) {
                    Ok((bs, d)) => {
                        lemma_field_round_trip(st, dy, cap, h, htype, n, v, pre, bs);
                        assert(pre + b + bs =~= pre + (b + bs));
                        assert(seq![(n, v)] + t =~= hs);
                    },
                    Err(_) => {},
                }
            },
            Err(_) => {},
        }
    }
}

} // verus!
