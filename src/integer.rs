use vstd::prelude::*;
use vstd::arithmetic::power2::pow2;
use vstd::arithmetic::power2::lemma2_to64;
use vstd::arithmetic::power2::lemma_pow2_unfold;
use vstd::arithmetic::power2::lemma2_to64_rest;

verus! {

/// At most this many continuation bytes are read after the prefix of an integer.
pub const MAX_CONTINUATION: usize = 8;

/// Value of the `n` continuation bytes of `buf` from `i`: seven bits each, least
/// significant group first.
pub open spec fn cont_value(buf: Seq<u8>, i: int, n: nat) -> nat
    decreases n,
{
    if n == 0 {
        0
    } else {
        cont_value(buf, i, (n - 1) as nat) + (buf[i + n - 1] as nat % 128) * pow2((7 * (n - 1)) as nat)
    }
}

/// The number of continuation bytes from `i`, ending with the first byte below 128,
/// when that byte lies within the first `limit` bytes and within `buf`.
pub open spec fn cont_count(buf: Seq<u8>, i: int, limit: nat) -> Option<nat>
    decreases limit,
{
    if limit == 0 || i >= buf.len() {
        None
    } else if buf[i] < 128 {
        Some(1)
    } else {
        match cont_count(buf, i + 1, (limit - 1) as nat) {
            Some(n) => Some(n + 1),
            None => None,
        }
    }
}

/// An integer with an N-bit prefix (RFC 7541 section 5.1) read at `pos`: its value
/// and the position after it.
pub open spec fn int_spec(buf: Seq<u8>, prefix: nat, pos: int) -> Option<(nat, int)> {
    if pos < 0 || pos >= buf.len() {
        None
    } else {
        let mask = (pow2(prefix) - 1) as nat;
        let first = buf[pos] as nat % pow2(prefix);
        if first < mask {
            Some((first, pos + 1))
        } else {
            match cont_count(buf, pos + 1, MAX_CONTINUATION as nat) {
                None => None,
                Some(n) => {
                    let v = mask + cont_value(buf, pos + 1, n);
                    if v <= usize::MAX {
                        Some((v, pos + 1 + n))
                    } else {
                        None
                    }
                },
            }
        }
    }
}

/// Continuation bytes that encode `rem`, seven bits at a time.
pub open spec fn cont_encode(rem: nat) -> Seq<u8>
    decreases rem,
{
    if rem < 128 {
        seq![rem as u8]
    } else {
        seq![(rem % 128 + 128) as u8] + cont_encode(rem / 128)
    }
}

/// `value` written with an N-bit prefix, the bits above it being `stat`.
pub open spec fn int_encode(value: nat, prefix: nat, stat: u8) -> Seq<u8> {
    let mask = (pow2(prefix) - 1) as nat;
    if value < mask {
        seq![(stat + value) as u8]
    } else {
        seq![(stat + mask) as u8] + cont_encode((value - mask) as nat)
    }
}

/// `2^prefix - 1` for a prefix of one to eight bits.
pub fn low_mask(prefix: u8) -> (r: u8)
    requires
        1 <= prefix <= 8,
    ensures
        r as nat == pow2(prefix as nat) - 1,
{
    proof {
        lemma2_to64();
    }
    match prefix {
        1 => 1,
        2 => 3,
        3 => 7,
        4 => 15,
        5 => 31,
        6 => 63,
        7 => 127,
        _ => 255,
    }
}

/// Reads an integer with an N-bit prefix at `*pos` (RFC 7541 section 5.1), moving
/// `*pos` past it; `None`, with `*pos` unchanged, when it is truncated, has more than
/// eight continuation bytes or does not fit in `usize`.
pub fn read_int(buf: &[u8], prefix: u8, pos: &mut usize) -> (r: Option<usize>)
    requires
        1 <= prefix <= 8,
    ensures
        r matches Some(v) ==> int_spec(buf@, prefix as nat, *old(pos) as int) == Some((v as nat, *final(pos) as int)),
        r is None ==> int_spec(buf@, prefix as nat, *old(pos) as int) is None && *final(pos) == *old(pos),
        r is Some ==> *old(pos) < *final(pos) <= buf@.len(),
{
    let start = *pos;
    if start >= buf.len() {
        return None;
    }
    let mask = low_mask(prefix);
    proof {
        lemma2_to64();
    }
    let first = (buf[start] as u16 % (mask as u16 + 1)) as u8;
    if first < mask {
        *pos = start + 1;
        return Some(first as usize);
    }
    let mut value: u64 = mask as u64;
    let mut k: usize = 0;
    let mut shift: u64 = 1;
    while k < MAX_CONTINUATION
        invariant
            start < buf@.len(),
            *pos == start,
            start == *old(pos),
            k <= MAX_CONTINUATION,
            first == mask,
            mask as nat == pow2(prefix as nat) - 1,
            shift as nat == pow2((7 * k) as nat),
            value as nat == mask as nat + cont_value(buf@, start + 1, k as nat),
            value as nat <= mask as nat + pow2((7 * k) as nat) - 1,
            buf@[start as int] as nat % pow2(prefix as nat) == first as nat,
            forall|j: int| start + 1 <= j < start + 1 + k ==> buf@[j] >= 128,
            start + 1 + k <= buf@.len(),
            cont_count(buf@, start + 1, MAX_CONTINUATION as nat) == cont_count_from(buf@, start + 1, k as nat),
        decreases MAX_CONTINUATION - k,
    {
        proof {
            lemma2_to64();
            lemma_pow2_unfold((7 * k + 7) as nat);
        }
        if k >= buf.len() - 1 - start {
            proof {
                lemma_cont_count_none(buf@, start + 1, k as nat);
                assert(cont_count(buf@, start + 1, MAX_CONTINUATION as nat) is None);
                assert(!(buf@[start as int] as nat % pow2(prefix as nat) < (pow2(prefix as nat) - 1) as nat));
            }
            return None;
        }
        let b = buf[start + 1 + k];
        proof {
            lemma_shift_bound(k as nat);
            vstd::arithmetic::power2::lemma2_to64_rest();
            assert((b as nat % 128) * pow2((7 * k) as nat) <= 127 * pow2((7 * k) as nat)) by (nonlinear_arith)
                requires b as nat % 128 <= 127;
            assert((b as nat % 128) * (shift as nat) <= 127 * 562949953421312) by (nonlinear_arith)
                requires b as nat % 128 <= 127, shift as nat <= 562949953421312;
        }
        value = value + (b % 128) as u64 * shift;
        if b < 128 {
            proof {
                lemma_cont_count_found(buf@, start + 1, k as nat);
                assert(cont_count(buf@, start + 1, MAX_CONTINUATION as nat) == Some((k + 1) as nat));
                assert(!(buf@[start as int] as nat % pow2(prefix as nat) < (pow2(prefix as nat) - 1) as nat));
                assert(value as nat == mask as nat + cont_value(buf@, start + 1, (k + 1) as nat));
            }
            if value > usize::MAX as u64 {
                return None;
            }
            *pos = start + 2 + k;
            return Some(value as usize);
        }
        proof {
            lemma_cont_count_step(buf@, start + 1, k as nat);
        }
        shift = shift * 128;
        k += 1;
    }
    proof {
        lemma_cont_count_exhausted(buf@, start + 1);
    }
    None
}

/// What `cont_count(buf, i, MAX_CONTINUATION)` comes to once the first `k` bytes
/// are known to have their high bit set.
pub open spec fn cont_count_from(buf: Seq<u8>, i: int, k: nat) -> Option<nat> {
    match cont_count(buf, i + k, (MAX_CONTINUATION - k) as nat) {
        Some(n) => Some(n + k),
        None => None,
    }
}

proof fn lemma_shift_bound(k: nat)
    requires
        k < 8,
    ensures
        pow2(7 * k) <= pow2(49),
        127 * pow2(7 * k) + pow2(7 * k) == pow2(7 * k + 7),
{
    lemma2_to64();
    lemma_pow2_unfold(7 * k + 7);
    if k < 7 {
        vstd::arithmetic::power2::lemma_pow2_strictly_increases(7 * k, 49);
    }
    vstd::arithmetic::power2::lemma_pow2_adds(7 * k, 7);
}

proof fn lemma_cont_count_none(buf: Seq<u8>, i: int, k: nat)
    requires
        k < MAX_CONTINUATION,
        i + k >= buf.len(),
    ensures
        cont_count_from(buf, i, k) is None,
{
}

proof fn lemma_cont_count_found(buf: Seq<u8>, i: int, k: nat)
    requires
        k < MAX_CONTINUATION,
        0 <= i + k < buf.len(),
        buf[i + k] < 128,
    ensures
        cont_count_from(buf, i, k) == Some(k + 1),
{
}

proof fn lemma_cont_count_step(buf: Seq<u8>, i: int, k: nat)
    requires
        k < MAX_CONTINUATION,
        0 <= i + k < buf.len(),
        buf[i + k] >= 128,
    ensures
        cont_count_from(buf, i, k) == cont_count_from(buf, i, k + 1),
{
}

proof fn lemma_cont_count_exhausted(buf: Seq<u8>, i: int)
    ensures
        cont_count_from(buf, i, MAX_CONTINUATION as nat) is None,
{
}

/// Appends `value` with an N-bit prefix (RFC 7541 section 5.1) to `writ`; the bits
/// above the prefix of the first byte are `stat_prefix`.
pub fn write_int(writ: &mut Vec<u8>, value: usize, prefix: u8, stat_prefix: u8)
    requires
        1 <= prefix <= 8,
        stat_prefix as nat % pow2(prefix as nat) == 0,
    ensures
        final(writ)@ == old(writ)@ + int_encode(value as nat, prefix as nat, stat_prefix),
{
    let max = low_mask(prefix);
    proof {
        lemma_stat_room(stat_prefix, prefix);
    }
    if value < max as usize {
        writ.push(stat_prefix + value as u8);
        return;
    }
    writ.push(stat_prefix + max);
    let ghost head = writ@;
    let mut rem: usize = value - max as usize;
    while rem >= 128
        invariant
            head + cont_encode((value - max) as nat) == writ@ + cont_encode(rem as nat),
        decreases rem,
    {
        let ghost before = writ@;
        writ.push((rem % 128 + 128) as u8);
        proof {
            assert(cont_encode(rem as nat) == seq![(rem % 128 + 128) as u8] + cont_encode((rem / 128) as nat));
            assert(writ@ + cont_encode((rem / 128) as nat) =~= before + cont_encode(rem as nat));
        }
        rem = rem / 128;
    }
    writ.push(rem as u8);
    proof {
        assert(writ@ =~= head + cont_encode((value - max) as nat));
    }
}

proof fn lemma_stat_room(stat: u8, prefix: u8)
    requires
        1 <= prefix <= 8,
        stat as nat % pow2(prefix as nat) == 0,
    ensures
        stat as nat + pow2(prefix as nat) - 1 <= 255,
{
    lemma2_to64();
    let s = stat as nat;
    if prefix == 1 {
        assert(s % 2 == 0 ==> s <= 254);
    } else if prefix == 2 {
        assert(s % 4 == 0 ==> s <= 252);
    } else if prefix == 3 {
        assert(s % 8 == 0 ==> s <= 248);
    } else if prefix == 4 {
        assert(s % 16 == 0 ==> s <= 240);
    } else if prefix == 5 {
        assert(s % 32 == 0 ==> s <= 224);
    } else if prefix == 6 {
        assert(s % 64 == 0 ==> s <= 192);
    } else if prefix == 7 {
        assert(s % 128 == 0 ==> s <= 128);
    } else {
        assert(s % 256 == 0 ==> s == 0);
    }
}


proof fn lemma_cont_encode_shape(r: nat)
    ensures
        cont_encode(r).len() >= 1,
        cont_encode(r).last() < 128,
        forall|j: int| 0 <= j < cont_encode(r).len() - 1 ==> #[trigger] cont_encode(r)[j] >= 128,
    decreases r,
{
    if r >= 128 {
        lemma_cont_encode_shape(r / 128);
        let t = cont_encode(r / 128);
        let e = cont_encode(r);
        assert(e == seq![(r % 128 + 128) as u8] + t);
        assert forall|j: int| 0 <= j < e.len() - 1 implies #[trigger] e[j] >= 128 by {
            if j > 0 {
                assert(e[j] == t[j - 1]);
            }
        }
    }
}

proof fn lemma_cont_encode_len(r: nat, k: nat)
    requires
        r < pow2(7 * k),
        k >= 1,
    ensures
        cont_encode(r).len() <= k,
    decreases k,
{
    lemma2_to64();
    if r >= 128 {
        assert(k >= 2) by {
            if k < 2 {
                assert(pow2(7) == 128);
            }
        }
        vstd::arithmetic::power2::lemma_pow2_adds(7, 7 * (k - 1) as nat);
        assert(r / 128 < pow2(7 * (k - 1) as nat)) by {
            vstd::arithmetic::div_mod::lemma_multiply_divide_lt(r as int, 128, pow2(7 * (k - 1) as nat) as int);
        }
        lemma_cont_encode_len(r / 128, (k - 1) as nat);
    }
}

/// Continuation bytes starting at `i` count and weigh as those starting one byte
/// later, shifted by seven bits.
proof fn lemma_cont_value_front(buf: Seq<u8>, i: int, n: nat)
    requires
        n >= 1,
    ensures
        cont_value(buf, i, n) == (buf[i] as nat % 128) + 128 * cont_value(buf, i + 1, (n - 1) as nat),
    decreases n,
{
    lemma2_to64();
    if n == 1 {
        assert(cont_value(buf, i, 0) == 0);
        assert(cont_value(buf, i + 1, 0) == 0);
    } else {
        lemma_cont_value_front(buf, i, (n - 1) as nat);
        vstd::arithmetic::power2::lemma_pow2_adds(7, 7 * (n - 2) as nat);
        let a = buf[i + n - 1] as nat % 128;
        assert(pow2((7 * (n - 1)) as nat) == 128 * pow2((7 * (n - 2)) as nat));
        assert(a * pow2((7 * (n - 1)) as nat) == 128 * (a * pow2((7 * (n - 2)) as nat))) by (nonlinear_arith)
            requires pow2((7 * (n - 1)) as nat) == 128 * pow2((7 * (n - 2)) as nat);
    }
}

proof fn lemma_cont_round_trip(r: nat, buf: Seq<u8>, i: int)
    requires
        0 <= i,
        i + cont_encode(r).len() <= buf.len(),
        buf.subrange(i, i + cont_encode(r).len()) == cont_encode(r),
    ensures
        cont_value(buf, i, cont_encode(r).len()) == r,
    decreases r,
{
    let e = cont_encode(r);
    assert(buf[i] == e[0]);
    if r < 128 {
        lemma_cont_value_front(buf, i, 1);
        assert(cont_value(buf, i + 1, 0) == 0);
    } else {
        let t = cont_encode(r / 128);
        assert(e == seq![(r % 128 + 128) as u8] + t);
        assert(buf.subrange(i + 1, i + 1 + t.len()) =~= t) by {
            assert forall|j: int| 0 <= j < t.len() implies buf.subrange(i + 1, i + 1 + t.len())[j] == t[j] by {
                assert(buf[i + 1 + j] == buf.subrange(i, i + e.len())[1 + j]);
            }
        }
        lemma_cont_round_trip(r / 128, buf, i + 1);
        lemma_cont_value_front(buf, i, e.len());
        vstd::arithmetic::div_mod::lemma_fundamental_div_mod(r as int, 128);
    }
}

proof fn lemma_cont_count_of(buf: Seq<u8>, i: int, e: Seq<u8>, limit: nat)
    requires
        0 <= i,
        e.len() >= 1,
        e.len() <= limit,
        i + e.len() <= buf.len(),
        buf.subrange(i, i + e.len()) == e,
        e.last() < 128,
        forall|j: int| 0 <= j < e.len() - 1 ==> #[trigger] e[j] >= 128,
    ensures
        cont_count(buf, i, limit) == Some(e.len()),
    decreases e.len(),
{
    assert(buf[i] == e[0]);
    if e.len() > 1 {
        let t = e.drop_first();
        assert(buf.subrange(i + 1, i + 1 + t.len()) =~= t) by {
            assert forall|j: int| 0 <= j < t.len() implies buf.subrange(i + 1, i + 1 + t.len())[j] == t[j] by {
                assert(buf[i + 1 + j] == buf.subrange(i, i + e.len())[1 + j]);
            }
        }
        assert forall|j: int| 0 <= j < t.len() - 1 implies #[trigger] t[j] >= 128 by {
            assert(t[j] == e[j + 1]);
        }
        lemma_cont_count_of(buf, i + 1, t, (limit - 1) as nat);
    }
}

/// An integer written by `write_int` reads back with `read_int` to the same value,
/// wherever it stands and whatever follows it, when it fits in `usize` and in eight
/// continuation bytes.
pub proof fn lemma_int_round_trip(pre: Seq<u8>, value: nat, prefix: nat, stat: u8, rest: Seq<u8>)
    requires
        1 <= prefix <= 8,
        stat as nat % pow2(prefix) == 0,
        value <= usize::MAX,
        value < pow2(prefix) - 1 + pow2(56),
    ensures
        int_spec(pre + int_encode(value, prefix, stat) + rest, prefix, pre.len() as int)
            == Some((value, (pre.len() + int_encode(value, prefix, stat).len()) as int)),
        int_encode(value, prefix, stat).len() >= 1,
        int_encode(value, prefix, stat)[0] as nat / pow2(prefix) == stat as nat / pow2(prefix),
{
    lemma2_to64();
    lemma2_to64_rest();
    let mask = (pow2(prefix) - 1) as nat;
    let enc = int_encode(value, prefix, stat);
    let buf = pre + enc + rest;
    let p = pre.len() as int;
    lemma_stat_room(stat, prefix as u8);
    if value < mask {
        assert(buf[p] == (stat + value) as u8);
        assert((stat as nat + value) % pow2(prefix) == value) by {
            vstd::arithmetic::div_mod::lemma_mod_adds(stat as int, value as int, pow2(prefix) as int);
            vstd::arithmetic::div_mod::lemma_small_mod(value, pow2(prefix));
        }
        assert((stat as nat + value) / pow2(prefix) == stat as nat / pow2(prefix)) by {
            lemma_div_plus_small(stat as nat, value, pow2(prefix));
        }
    } else {
        assert(buf[p] == (stat + mask) as u8);
        assert((stat as nat + mask) % pow2(prefix) == mask) by {
            vstd::arithmetic::div_mod::lemma_mod_adds(stat as int, mask as int, pow2(prefix) as int);
            vstd::arithmetic::div_mod::lemma_small_mod(mask, pow2(prefix));
        }
        assert((stat as nat + mask) / pow2(prefix) == stat as nat / pow2(prefix)) by {
            lemma_div_plus_small(stat as nat, mask, pow2(prefix));
        }
        let r = (value - mask) as nat;
        let e = cont_encode(r);
        lemma_cont_encode_shape(r);
        lemma_cont_encode_len(r, 8);
        assert(buf.subrange(p + 1, p + 1 + e.len() as int) =~= e);
        lemma_cont_count_of(buf, p + 1, e, MAX_CONTINUATION as nat);
        lemma_cont_round_trip(r, buf, p + 1);
    }
}

proof fn lemma_div_plus_small(a: nat, b: nat, d: nat)
    requires
        d > 0,
        a % d == 0,
        b < d,
    ensures
        (a + b) / d == a / d,
{
    vstd::arithmetic::div_mod::lemma_fundamental_div_mod(a as int, d as int);
    vstd::arithmetic::div_mod::lemma_div_multiples_vanish_fancy((a / d) as int, b as int, d as int);
}

} // verus!
