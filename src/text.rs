use vstd::prelude::*;

verus! {

/// The text of a byte string, invalid UTF-8 replaced by U+FFFD.
pub uninterp spec fn lossy_text_of(b: Seq<u8>) -> Seq<char>;

/// Whether every byte is ASCII.
pub open spec fn is_ascii_bytes(b: Seq<u8>) -> bool {
    forall|i: int| 0 <= i < b.len() ==> #[trigger] b[i] < 128
}

/// ASCII bytes read as characters.
pub open spec fn ascii_chars(b: Seq<u8>) -> Seq<char> {
    Seq::new(b.len(), |i: int| b[i] as char)
}

/// The text of a byte string: ASCII read as it is, anything else as
/// `String::from_utf8_lossy` reads it.
pub open spec fn text_of(b: Seq<u8>) -> Seq<char> {
    if is_ascii_bytes(b) { ascii_chars(b) } else { lossy_text_of(b) }
}

/// Relies on `String::from_utf8_lossy`: the text of `b`, which depends on `b` alone;
/// valid UTF-8, and so ASCII, is kept as it is.
#[verifier::external_body]
pub(crate) fn lossy_text(b: &[u8]) -> (r: String)
    ensures
        r@ == lossy_text_of(b@),
        is_ascii_bytes(b@) ==> r@ == ascii_chars(b@),
        r@ == text_of(b@),
{
    String::from_utf8_lossy(b).into_owned()
}

/// ASCII white space as `char::is_whitespace` sees it.
pub open spec fn is_ws(b: u8) -> bool {
    b == 32 || (9 <= b && b <= 13)
}

pub open spec fn trim_start(s: Seq<u8>) -> Seq<u8>
    decreases s.len(),
{
    if s.len() > 0 && is_ws(s[0]) {
        trim_start(s.drop_first())
    } else {
        s
    }
}

pub open spec fn trim_end(s: Seq<u8>) -> Seq<u8>
    decreases s.len(),
{
    if s.len() > 0 && is_ws(s.last()) {
        trim_end(s.drop_last())
    } else {
        s
    }
}

/// `s` without white space at either end.
pub open spec fn trim(s: Seq<u8>) -> Seq<u8> {
    trim_end(trim_start(s))
}

/// Index of the first `b` in `s` at or after `i`.
pub open spec fn find_byte(s: Seq<u8>, b: u8, i: nat) -> Option<nat>
    decreases s.len() - i,
{
    if i >= s.len() {
        None
    } else if s[i as int] == b {
        Some(i)
    } else {
        find_byte(s, b, i + 1)
    }
}

/// `s` without its line ending (LF, or CR LF).
pub open spec fn strip_eol(s: Seq<u8>) -> Seq<u8> {
    if s.len() > 0 && s.last() == 10 {
        let t = s.drop_last();
        if t.len() > 0 && t.last() == 13 { t.drop_last() } else { t }
    } else {
        s
    }
}

pub fn is_ws_byte(b: u8) -> (r: bool)
    ensures
        r == is_ws(b),
{
    b == 32 || (9 <= b && b <= 13)
}

/// Copies `s[start..end]`.
pub fn slice_to_vec(s: &[u8], start: usize, end: usize) -> (r: Vec<u8>)
    requires
        start <= end <= s@.len(),
    ensures
        r@ == s@.subrange(start as int, end as int),
{
    let mut r: Vec<u8> = Vec::new();
    r.extend_from_slice(&s[start..end]);
    assert(r@ =~= s@.subrange(start as int, end as int));
    r
}

proof fn lemma_trim_start_step(s: Seq<u8>, i: int)
    requires
        0 <= i < s.len(),
        is_ws(s[i]),
    ensures
        trim_start(s.subrange(i, s.len() as int)) == trim_start(s.subrange(i + 1, s.len() as int)),
{
    let t = s.subrange(i, s.len() as int);
    assert(t.drop_first() =~= s.subrange(i + 1, s.len() as int));
}

proof fn lemma_trim_end_step(s: Seq<u8>, j: int)
    requires
        0 < j <= s.len(),
        is_ws(s[j - 1]),
    ensures
        trim_end(s.subrange(0, j)) == trim_end(s.subrange(0, j - 1)),
{
    let t = s.subrange(0, j);
    assert(t.drop_last() =~= s.subrange(0, j - 1));
}

/// The bounds of `s` without white space at either end.
pub fn trim_bounds(s: &[u8]) -> (r: (usize, usize))
    ensures
        r.0 <= r.1 <= s@.len(),
        s@.subrange(r.0 as int, r.1 as int) == trim(s@),
{
    let mut a: usize = 0;
    assert(s@.subrange(0, s@.len() as int) =~= s@);
    while a < s.len() && is_ws_byte(s[a])
        invariant
            a <= s@.len(),
            trim_start(s@) == trim_start(s@.subrange(a as int, s@.len() as int)),
        decreases s@.len() - a,
    {
        proof {
            lemma_trim_start_step(s@, a as int);
        }
        a += 1;
    }
    let ghost t = s@.subrange(a as int, s@.len() as int);
    assert(trim_start(t) == t);
    let mut b: usize = s.len();
    assert(t.subrange(0, t.len() as int) =~= t);
    while b > a && is_ws_byte(s[b - 1])
        invariant
            a <= b <= s@.len(),
            t == s@.subrange(a as int, s@.len() as int),
            trim_end(t) == trim_end(s@.subrange(a as int, b as int)),
        decreases b,
    {
        proof {
            let u = s@.subrange(a as int, b as int);
            assert(u.drop_last() =~= s@.subrange(a as int, b - 1));
        }
        b -= 1;
    }
    (a, b)
}

/// `s` without white space at either end.
pub fn trim_vec(s: &[u8]) -> (r: Vec<u8>)
    ensures
        r@ == trim(s@),
{
    let (a, b) = trim_bounds(s);
    slice_to_vec(s, a, b)
}

/// The first `b` in `s` at or after `from`.
pub fn find(s: &[u8], b: u8, from: usize) -> (r: Option<usize>)
    ensures
        r matches Some(i) ==> find_byte(s@, b, from as nat) == Some(i as nat),
        r is None ==> find_byte(s@, b, from as nat) is None,
{
    let mut i = from;
    while i < s.len()
        invariant
            from <= i,
            find_byte(s@, b, from as nat) == find_byte(s@, b, i as nat),
        decreases s@.len() - i,
    {
        if s[i] == b {
            return Some(i);
        }
        i += 1;
    }
    None
}

/// The end of `s` before its line ending.
pub fn eol_bound(s: &[u8]) -> (r: usize)
    ensures
        r <= s@.len(),
        s@.subrange(0, r as int) == strip_eol(s@),
{
    let mut n = s.len();
    if n > 0 && s[n - 1] == 10 {
        n -= 1;
        if n > 0 && s[n - 1] == 13 {
            n -= 1;
        }
    }
    assert(s@.subrange(0, n as int) =~= strip_eol(s@));
    n
}

/// Value of a hexadecimal digit, either case.
pub open spec fn hex_digit_value(b: u8) -> Option<nat> {
    if 48 <= b <= 57 {
        Some((b - 48) as nat)
    } else if 65 <= b <= 70 {
        Some((b - 55) as nat)
    } else if 97 <= b <= 102 {
        Some((b - 87) as nat)
    } else {
        None
    }
}

/// Value of a decimal digit.
pub open spec fn dec_digit_value(b: u8) -> Option<nat> {
    if 48 <= b <= 57 { Some((b - 48) as nat) } else { None }
}

/// Value of the digits of `s` in base `radix`, or `None` when one is not a digit.
pub open spec fn digits_value(s: Seq<u8>, radix: nat) -> Option<nat>
    decreases s.len(),
{
    if s.len() == 0 {
        Some(0)
    } else {
        let d = if radix == 16 { hex_digit_value(s.last()) } else { dec_digit_value(s.last()) };
        match (digits_value(s.drop_last(), radix), d) {
            (Some(v), Some(x)) => Some(v * radix + x),
            _ => None,
        }
    }
}

/// A number written in base 16 or 10: at least one digit, each a digit, and a value
/// that fits in `usize`.
pub open spec fn number_spec(s: Seq<u8>, radix: nat) -> Option<nat> {
    if s.len() == 0 {
        None
    } else {
        match digits_value(s, radix) {
            Some(v) => if v <= usize::MAX { Some(v) } else { None },
            None => None,
        }
    }
}

/// Reads a number in base 16 or 10 from all of `s`.
pub fn parse_number(s: &[u8], hex: bool) -> (r: Option<usize>)
    ensures
        r matches Some(v) ==> number_spec(s@, if hex { 16nat } else { 10nat }) == Some(v as nat),
        r is None ==> number_spec(s@, if hex { 16nat } else { 10nat }) is None,
{
    let ghost radix: nat = if hex { 16 } else { 10 };
    let base: usize = if hex { 16 } else { 10 };
    if s.len() == 0 {
        return None;
    }
    let mut v: usize = 0;
    let mut i: usize = 0;
    assert(s@.subrange(0, 0) =~= Seq::<u8>::empty());
    while i < s.len()
        invariant
            base as nat == radix,
            radix == (if hex { 16nat } else { 10nat }),
            i <= s@.len(),
            digits_value(s@.subrange(0, i as int), radix) == Some(v as nat),
        decreases s@.len() - i,
    {
        let b = s[i];
        let d: Option<usize> = if 48 <= b && b <= 57 {
            Some((b - 48) as usize)
        } else if hex && 65 <= b && b <= 70 {
            Some((b - 55) as usize)
        } else if hex && 97 <= b && b <= 102 {
            Some((b - 87) as usize)
        } else {
            None
        };
        let ghost t = s@.subrange(0, i + 1);
        proof {
            assert(t.drop_last() =~= s@.subrange(0, i as int));
        }
        match d {
            None => {
                proof {
                    lemma_digits_none_extends(s@, (i + 1) as nat, radix);
                }
                return None;
            },
            Some(x) => {
                let lim = (usize::MAX - x) / base;
                if v > lim {
                    proof {
                        let m = usize::MAX as int;
                        assert((v as int) * (base as int) + (x as int) > m) by (nonlinear_arith)
                            requires
                                lim as int == (m - x as int) / (base as int),
                                v as int > lim as int,
                                base >= 10,
                                (x as int) < (base as int),
                                (x as int) >= 0;
                        lemma_digits_big_extends(s@, (i + 1) as nat, radix, (v * base + x) as nat);
                    }
                    return None;
                }
                proof {
                    let m = usize::MAX as int;
                    assert((v as int) * (base as int) + (x as int) <= m) by (nonlinear_arith)
                        requires
                            lim as int == (m - x as int) / (base as int),
                            v as int <= lim as int,
                            base >= 10,
                            (x as int) < (base as int),
                            (x as int) >= 0,
                            m >= x as int;
                }
                v = v * base + x;
            },
        }
        i += 1;
    }
    assert(s@.subrange(0, s@.len() as int) =~= s@);
    Some(v)
}

/// Once a prefix holds a non-digit, so does the whole.
proof fn lemma_digits_none_extends(s: Seq<u8>, n: nat, radix: nat)
    requires
        n <= s.len(),
        digits_value(s.subrange(0, n as int), radix) is None,
    ensures
        digits_value(s, radix) is None,
    decreases s.len() - n,
{
    if n < s.len() {
        let t = s.subrange(0, n as int + 1);
        assert(t.drop_last() =~= s.subrange(0, n as int));
        lemma_digits_none_extends(s, n + 1, radix);
    } else {
        assert(s.subrange(0, n as int) =~= s);
    }
}

/// Values only grow as digits are added.
proof fn lemma_digits_big_extends(s: Seq<u8>, n: nat, radix: nat, v: nat)
    requires
        n <= s.len(),
        radix >= 1,
        digits_value(s.subrange(0, n as int), radix) == Some(v),
        v > usize::MAX,
    ensures
        number_spec(s, radix) is None,
    decreases s.len() - n,
{
    if n < s.len() {
        let t = s.subrange(0, n as int + 1);
        assert(t.drop_last() =~= s.subrange(0, n as int));
        match digits_value(t, radix) {
            Some(w) => {
                assert(w >= v * radix) by (nonlinear_arith)
                    requires
                        w >= v * radix,
                {
                }
                assert(v * radix >= v) by (nonlinear_arith)
                    requires
                        radix >= 1,
                {
                }
                lemma_digits_big_extends(s, n + 1, radix, w);
            },
            None => {
                lemma_digits_none_extends(s, n + 1, radix);
            },
        }
    } else {
        assert(s.subrange(0, n as int) =~= s);
    }
}

/// The digit character of a value below 16, upper case.
pub open spec fn digit_char(d: nat) -> u8 {
    if d < 10 { (48 + d) as u8 } else { (55 + d) as u8 }
}

/// The digits of `n` in base `radix`, most significant first, without leading zeros
/// (a single `0` for zero).
pub open spec fn digits_of(n: nat, radix: nat) -> Seq<u8>
    decreases n
    via digits_of_decreases
{
    if radix < 2 || n < radix {
        seq![digit_char(n)]
    } else {
        digits_of(n / radix, radix).push(digit_char(n % radix))
    }
}

#[via_fn]
proof fn digits_of_decreases(n: nat, radix: nat) {
    if !(radix < 2 || n < radix) {
        vstd::arithmetic::div_mod::lemma_div_decreases(n as int, radix as int);
    }
}

proof fn lemma_digit_char_value(d: nat, radix: nat)
    requires
        radix == 10 || radix == 16,
        d < radix,
    ensures
        (if radix == 16 { hex_digit_value(digit_char(d)) } else { dec_digit_value(digit_char(d)) }) == Some(d),
{
}

/// Writes `n` in base 16 (upper case) or 10.
pub fn format_number(n: usize, hex: bool) -> (r: Vec<u8>)
    ensures
        r@ == digits_of(n as nat, if hex { 16nat } else { 10nat }),
    decreases n,
{
    let base: usize = if hex { 16 } else { 10 };
    if n < base {
        let d: u8 = n as u8;
        let c: u8 = if d < 10 { 48 + d } else { 55 + d };
        let r: Vec<u8> = vec![c];
        assert(r@ =~= digits_of(n as nat, if hex { 16nat } else { 10nat }));
        r
    } else {
        let mut r = format_number(n / base, hex);
        let d: u8 = (n % base) as u8;
        let c: u8 = if d < 10 { 48 + d } else { 55 + d };
        r.push(c);
        r
    }
}

/// Digits written by `format_number` read back to the same number.
pub proof fn lemma_digits_round_trip(n: nat, radix: nat)
    requires
        radix == 10 || radix == 16,
    ensures
        digits_value(digits_of(n, radix), radix) == Some(n),
        digits_of(n, radix).len() >= 1,
    decreases n,
{
    if n < radix {
        let s = digits_of(n, radix);
        assert(s.drop_last() =~= Seq::<u8>::empty());
        assert(digits_value(Seq::<u8>::empty(), radix) == Some(0nat));
        lemma_digit_char_value(n, radix);
        assert(s.last() == digit_char(n));
        assert(0 * radix + n == n);
    } else {
        lemma_digits_round_trip(n / radix, radix);
        let s = digits_of(n, radix);
        assert(s.drop_last() == digits_of(n / radix, radix));
        lemma_digit_char_value(n % radix, radix);
        assert(s.last() == digit_char(n % radix));
        vstd::arithmetic::div_mod::lemma_fundamental_div_mod(n as int, radix as int);
        assert((n / radix) * radix + n % radix == n) by (nonlinear_arith)
            requires
                n == radix * (n / radix) + n % radix;
    }
}

} // verus!
