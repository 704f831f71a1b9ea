use vstd::prelude::*;
use crate::hpack::copy_bytes;
use crate::hpack::evicted;
use crate::hpack::fields_view;
use crate::hpack::DynamicTable;
use crate::hpack::Field;
use crate::hpack::HeaderType;
use crate::hpack::HpackError;
use crate::hpack::StaticTable;
use crate::huffman::Huffman;
use crate::integer::int_encode;
use crate::integer::write_int;
use crate::static_table::rfc_static_table;
use vstd::arithmetic::power2::lemma2_to64;

verus! {

/// One-based index of the first entry from `i` on named `name`.
pub open spec fn find_name(table: Seq<Field>, name: Seq<u8>, i: nat) -> Option<nat>
    decreases table.len() - i,
{
    if i >= table.len() {
        None
    } else if table[i as int].0 == name {
        Some(i + 1)
    } else {
        find_name(table, name, i + 1)
    }
}

/// One-based index of the first entry from `i` on equal to `(name, value)`.
pub open spec fn find_field(table: Seq<Field>, name: Seq<u8>, value: Seq<u8>, i: nat) -> Option<nat>
    decreases table.len() - i,
{
    if i >= table.len() {
        None
    } else if table[i as int] == (name, value) {
        Some(i + 1)
    } else {
        find_field(table, name, value, i + 1)
    }
}

/// A string literal (RFC 7541 section 5.2): Huffman-coded when asked, raw when asked
/// not to, else whichever is not longer, the Huffman form on a tie.
pub open spec fn string_encode(h: Huffman, value: Seq<u8>, use_huff: Option<bool>) -> Seq<u8> {
    let huff = h.encode_spec(value);
    let coded = int_encode(huff.len(), 7, 0x80) + huff;
    let raw = int_encode(value.len(), 7, 0) + value;
    match use_huff {
        Some(true) => coded,
        Some(false) => raw,
        None => if huff.len() > value.len() { raw } else { coded },
    }
}

/// The bytes that represent the field, given the table, or the error for a kind
/// that cannot represent it.
#[verifier::opaque]
pub open spec fn encode_spec(table: Seq<Field>, h: Huffman, htype: HeaderType, name: Seq<u8>, value: Seq<u8>, use_huff: Option<bool>) -> Result<Seq<u8>, HpackError> {
    match find_field(table, name, value, 0) {
        Some(i) => Ok(int_encode(i, 7, 0x80)),
        None => {
            let v = string_encode(h, value, use_huff);
            match find_name(table, name, 0) {
                Some(i) => match htype {
                    HeaderType::Indexed => Ok(int_encode(i, 6, 0x40) + v),
                    HeaderType::NotIndexed => Ok(int_encode(i, 4, 0x00) + v),
                    HeaderType::NeverIndexed => Ok(int_encode(i, 4, 0x10) + v),
                    _ => Err(HpackError::InvalidHeaderType),
                },
                None => {
                    let n = string_encode(h, name, use_huff);
                    match htype {
                        HeaderType::Indexed => Ok(int_encode(0, 6, 0x40) + n + v),
                        HeaderType::NotIndexed => Ok(int_encode(0, 4, 0x00) + n + v),
                        HeaderType::NeverIndexed => Ok(int_encode(0, 4, 0x10) + n + v),
                        _ => Err(HpackError::InvalidHeaderType),
                    }
                },
            }
        },
    }
}

/// Whether encoding the field adds it to the dynamic table.
pub open spec fn encode_inserts(table: Seq<Field>, htype: HeaderType, name: Seq<u8>, value: Seq<u8>) -> bool {
    htype == HeaderType::Indexed && find_field(table, name, value, 0) is None
}

/// The bytes of a header list encoded field by field with kind `htype` and the
/// shorter string form, and the dynamic table afterwards.
pub open spec fn encode_all_spec(st: Seq<Field>, dy: Seq<Field>, cap: nat, h: Huffman, htype: HeaderType, hs: Seq<Field>) -> Result<(Seq<u8>, Seq<Field>), HpackError>
    decreases hs.len(),
{
    if hs.len() == 0 {
        Ok((seq![], dy))
    } else {
        let table = st + dy;
        match encode_spec(table, h, htype, hs[0].0, hs[0].1, None) {
            Err(e) => Err(e),
            Ok(b) => {
                let dy2 = if encode_inserts(table, htype, hs[0].0, hs[0].1) {
                    evicted(seq![hs[0]] + dy, cap)
                } else {
                    dy
                };
                match encode_all_spec(st, dy2, cap, h, htype, hs.drop_first()) {
                    Err(e) => Err(e),
                    Ok((bs, d)) => Ok((b + bs, d)),
                }
            },
        }
    }
}

pub struct Encoder<'a> {
    pub static_table: StaticTable<'a>,
    pub dynamic_table: DynamicTable,
    pub huffman: Huffman,
}

impl<'a> Encoder<'a> {
    pub open spec fn wf(&self) -> bool {
        &&& self.dynamic_table.wf()
        &&& self.huffman.wf()
        &&& self.static_table@.len() <= usize::MAX / 2
    }

    /// The static table followed by the dynamic one, as indexed from one.
    pub open spec fn table(&self) -> Seq<Field> {
        self.static_table@ + self.dynamic_table@
    }

    /// An encoder with the static table of RFC 7541 and an empty dynamic table of
    /// maximum size `table_size`.
    pub fn new(table_size: usize) -> (r: Self)
        ensures
            r.wf(),
            r.static_table@ == rfc_static_table(),
            r.dynamic_table@ == Seq::<Field>::empty(),
            r.dynamic_table.table_size == table_size,
    {
        Self::with_static_table(table_size, StaticTable::rfc())
    }

    pub fn with_static_table(table_size: usize, static_table: StaticTable<'a>) -> (r: Self)
        requires
            static_table@.len() <= usize::MAX / 2,
        ensures
            r.wf(),
            r.static_table@ == static_table@,
            r.dynamic_table@ == Seq::<Field>::empty(),
            r.dynamic_table.table_size == table_size,
    {
        Encoder { static_table, dynamic_table: DynamicTable::new(table_size), huffman: Huffman::new() }
    }

    /// Zero-based entry `i` of the static table followed by the dynamic one.
    fn entry(&self, i: usize) -> (r: (&[u8], &[u8]))
        requires
            i < self.table().len(),
        ensures
            (r.0@, r.1@) == self.table()[i as int],
    {
        let ssize = self.static_table.len();
        if i < ssize {
            match self.static_table.get(i) {
                Some(e) => e,
                None => {
                    assert(false);
                    (&[], &[])
                },
            }
        } else {
            match self.dynamic_table.get(i - ssize) {
                Some(e) => e,
                None => {
                    assert(false);
                    (&[], &[])
                },
            }
        }
    }

    fn table_len(&self) -> (r: usize)
        requires
            self.wf(),
        ensures
            r == self.table().len(),
            r < usize::MAX,
    {
        let s = self.static_table.len();
        let d = self.dynamic_table.len();
        proof {
            crate::hpack::lemma_entries_size_lower(self.dynamic_table@);
        }
        s + d
    }

    /// One-based index of the first entry named `name`.
    pub fn find(&self, name: &[u8]) -> (r: Option<usize>)
        requires
            self.wf(),
        ensures
            r matches Some(i) ==> find_name(self.table(), name@, 0) == Some(i as nat),
            r is None ==> find_name(self.table(), name@, 0) is None,
    {
        let n = self.table_len();
        let mut i: usize = 0;
        while i < n
            invariant
                n == self.table().len(),
                n < usize::MAX,
                i <= n,
                find_name(self.table(), name@, 0) == find_name(self.table(), name@, i as nat),
            decreases n - i,
        {
            let e = self.entry(i);
            if bytes_eq(e.0, name) {
                return Some(i + 1);
            }
            i += 1;
        }
        None
    }

    /// One-based index of the first entry equal to `(name, value)`.
    pub fn find_exact(&self, name: &[u8], value: &[u8]) -> (r: Option<usize>)
        requires
            self.wf(),
        ensures
            r matches Some(i) ==> find_field(self.table(), name@, value@, 0) == Some(i as nat),
            r is None ==> find_field(self.table(), name@, value@, 0) is None,
    {
        let n = self.table_len();
        let mut i: usize = 0;
        while i < n
            invariant
                n == self.table().len(),
                n < usize::MAX,
                i <= n,
                find_field(self.table(), name@, value@, 0) == find_field(self.table(), name@, value@, i as nat),
            decreases n - i,
        {
            let e = self.entry(i);
            if bytes_eq(e.0, name) && bytes_eq(e.1, value) {
                return Some(i + 1);
            }
            i += 1;
        }
        None
    }

    /// Appends an integer with an N-bit prefix (RFC 7541 section 5.1).
    pub fn write_int(writ: &mut Vec<u8>, value: usize, prefix: u8, stat_prefix: u8)
        requires
            1 <= prefix <= 8,
            stat_prefix as nat % vstd::arithmetic::power2::pow2(prefix as nat) == 0,
        ensures
            final(writ)@ == old(writ)@ + int_encode(value as nat, prefix as nat, stat_prefix),
    {
        write_int(writ, value, prefix, stat_prefix)
    }

    /// Appends a string literal (RFC 7541 section 5.2).
    pub fn write_string(&self, writ: &mut Vec<u8>, value: &[u8], use_huff: Option<bool>)
        requires
            self.wf(),
        ensures
            final(writ)@ == old(writ)@ + string_encode(self.huffman, value@, use_huff),
    {
        proof {
            lemma2_to64();
        }
        let ghost start = writ@;
        if use_huff == Some(true) {
            let huff = self.huffman.encode(value);
            write_int(writ, huff.len(), 7, 0x80);
            writ.extend_from_slice(huff.as_slice());
        } else if use_huff == Some(false) {
            write_int(writ, value.len(), 7, 0x00);
            writ.extend_from_slice(value);
        } else {
            let huff = self.huffman.encode(value);
            if huff.len() > value.len() {
                write_int(writ, value.len(), 7, 0x00);
                writ.extend_from_slice(value);
            } else {
                write_int(writ, huff.len(), 7, 0x80);
                writ.extend_from_slice(huff.as_slice());
            }
        }
        assert(writ@ =~= start + string_encode(self.huffman, value@, use_huff));
    }

    /// Indexed field (RFC 7541 section 6.1).
    pub fn write_indexed(&self, writ: &mut Vec<u8>, index: usize)
        ensures
            final(writ)@ == old(writ)@ + int_encode(index as nat, 7, 0x80),
    {
        proof {
            lemma2_to64();
        }
        write_int(writ, index, 7, 0x80)
    }

    /// Literal with incremental indexing and an indexed name (RFC 7541 section 6.2.1).
    pub fn write_indexed_name(&self, writ: &mut Vec<u8>, index: usize, value: &[u8], use_huff: Option<bool>)
        requires
            self.wf(),
        ensures
            final(writ)@ == old(writ)@ + int_encode(index as nat, 6, 0x40) + string_encode(self.huffman, value@, use_huff),
    {
        proof {
            lemma2_to64();
        }
        write_int(writ, index, 6, 0x40);
        self.write_string(writ, value, use_huff);
    }

    /// Literal with incremental indexing and a new name (RFC 7541 section 6.2.1).
    pub fn write_new_indexed_name(&self, writ: &mut Vec<u8>, name: &[u8], value: &[u8], use_huff: Option<bool>)
        requires
            self.wf(),
        ensures
            final(writ)@ == old(writ)@ + int_encode(0, 6, 0x40) + string_encode(self.huffman, name@, use_huff)
                + string_encode(self.huffman, value@, use_huff),
    {
        proof {
            lemma2_to64();
        }
        write_int(writ, 0, 6, 0x40);
        self.write_string(writ, name, use_huff);
        self.write_string(writ, value, use_huff);
    }

    /// Literal without indexing and an indexed name (RFC 7541 section 6.2.2).
    pub fn write_not_indexed(&self, writ: &mut Vec<u8>, index: usize, value: &[u8], use_huff: Option<bool>)
        requires
            self.wf(),
        ensures
            final(writ)@ == old(writ)@ + int_encode(index as nat, 4, 0x00) + string_encode(self.huffman, value@, use_huff),
    {
        proof {
            lemma2_to64();
        }
        write_int(writ, index, 4, 0x00);
        self.write_string(writ, value, use_huff);
    }

    /// Literal without indexing and a new name (RFC 7541 section 6.2.2).
    pub fn write_new_not_indexed(&self, writ: &mut Vec<u8>, name: &[u8], value: &[u8], use_huff: Option<bool>)
        requires
            self.wf(),
        ensures
            final(writ)@ == old(writ)@ + int_encode(0, 4, 0x00) + string_encode(self.huffman, name@, use_huff)
                + string_encode(self.huffman, value@, use_huff),
    {
        proof {
            lemma2_to64();
        }
        write_int(writ, 0, 4, 0x00);
        self.write_string(writ, name, use_huff);
        self.write_string(writ, value, use_huff);
    }

    /// Literal never indexed with an indexed name (RFC 7541 section 6.2.3).
    pub fn write_never_indexed(&self, writ: &mut Vec<u8>, index: usize, value: &[u8], use_huff: Option<bool>)
        requires
            self.wf(),
        ensures
            final(writ)@ == old(writ)@ + int_encode(index as nat, 4, 0x10) + string_encode(self.huffman, value@, use_huff),
    {
        proof {
            lemma2_to64();
        }
        write_int(writ, index, 4, 0x10);
        self.write_string(writ, value, use_huff);
    }

    /// Literal never indexed with a new name (RFC 7541 section 6.2.3).
    pub fn write_new_never_indexed(&self, writ: &mut Vec<u8>, name: &[u8], value: &[u8], use_huff: Option<bool>)
        requires
            self.wf(),
        ensures
            final(writ)@ == old(writ)@ + int_encode(0, 4, 0x10) + string_encode(self.huffman, name@, use_huff)
                + string_encode(self.huffman, value@, use_huff),
    {
        proof {
            lemma2_to64();
        }
        write_int(writ, 0, 4, 0x10);
        self.write_string(writ, name, use_huff);
        self.write_string(writ, value, use_huff);
    }

    /// Dynamic table size update (RFC 7541 section 6.3).
    pub fn write_table_size(&self, writ: &mut Vec<u8>, new_size: usize)
        ensures
            final(writ)@ == old(writ)@ + int_encode(new_size as nat, 5, 0x20),
    {
        proof {
            lemma2_to64();
        }
        write_int(writ, new_size, 5, 0x20)
    }

    /// Appends the representation of one field: indexed when the tables hold it,
    /// else a literal of kind `htype` (with an indexed name when one is found),
    /// adding it to the dynamic table for `Indexed`. `Lookup` of a field that is
    /// not in the tables, and `TableSizeChange`, are refused and write nothing.
    pub fn encode(&mut self, writ: &mut Vec<u8>, htype: HeaderType, name: &[u8], value: &[u8], use_huff: Option<bool>) -> (r: Result<(), HpackError>)
        requires
            old(self).wf(),
        ensures
            final(self).wf(),
            final(self).static_table@ == old(self).static_table@,
            final(self).huffman == old(self).huffman,
            final(self).dynamic_table.table_size == old(self).dynamic_table.table_size,
            match encode_spec(old(self).table(), old(self).huffman, htype, name@, value@, use_huff) {
                Ok(bytes) => r is Ok && final(writ)@ == old(writ)@ + bytes
                    && final(self).dynamic_table@ == if encode_inserts(old(self).table(), htype, name@, value@) {
                        evicted(seq![(name@, value@)] + old(self).dynamic_table@, old(self).dynamic_table.table_size as nat)
                    } else {
                        old(self).dynamic_table@
                    },
                Err(e) => r == Err::<(), HpackError>(e) && final(writ)@ == old(writ)@
                    && final(self).dynamic_table@ == old(self).dynamic_table@,
            },
    {
        proof {
            reveal(encode_spec);
        }
        match self.find_exact(name, value) {
            Some(index) => {
                self.write_indexed(writ, index);
                Ok(())
            },
            None => match self.find(name) {
                Some(index) => match htype {
                    HeaderType::Indexed => {
                        self.write_indexed_name(writ, index, value, use_huff);
                        self.dynamic_table.add((copy_bytes(name), copy_bytes(value)));
                        Ok(())
                    },
                    HeaderType::NotIndexed => {
                        self.write_not_indexed(writ, index, value, use_huff);
                        Ok(())
                    },
                    HeaderType::NeverIndexed => {
                        self.write_never_indexed(writ, index, value, use_huff);
                        Ok(())
                    },
                    _ => Err(HpackError::InvalidHeaderType),
                },
                None => match htype {
                    HeaderType::Indexed => {
                        self.write_new_indexed_name(writ, name, value, use_huff);
                        self.dynamic_table.add((copy_bytes(name), copy_bytes(value)));
                        Ok(())
                    },
                    HeaderType::NotIndexed => {
                        self.write_new_not_indexed(writ, name, value, use_huff);
                        Ok(())
                    },
                    HeaderType::NeverIndexed => {
                        self.write_new_never_indexed(writ, name, value, use_huff);
                        Ok(())
                    },
                    _ => Err(HpackError::InvalidHeaderType),
                },
            },
        }
    }
}

impl<'a> Encoder<'a> {
    fn encode_list(&mut self, headers: &[(Vec<u8>, Vec<u8>)], htype: HeaderType) -> (r: Result<Vec<u8>, HpackError>)
        requires
            old(self).wf(),
        ensures
            final(self).wf(),
            final(self).static_table@ == old(self).static_table@,
            final(self).huffman == old(self).huffman,
            final(self).dynamic_table.table_size == old(self).dynamic_table.table_size,
            match encode_all_spec(old(self).static_table@, old(self).dynamic_table@, old(self).dynamic_table.table_size as nat,
                old(self).huffman, htype, fields_view(headers@)) {
                Ok((bytes, d)) => r matches Ok(b) && b@ == bytes && final(self).dynamic_table@ == d,
                Err(e) => r == Err::<Vec<u8>, HpackError>(e),
            },
    {
        let mut buff: Vec<u8> = Vec::new();
        let ghost hs = fields_view(headers@);
        let ghost whole = encode_all_spec(self.static_table@, self.dynamic_table@, self.dynamic_table.table_size as nat,
            self.huffman, htype, hs);
        let mut i: usize = 0;
        proof {
            assert(hs.subrange(0, hs.len() as int) =~= hs);
            assert forall|bs: Seq<u8>| #![auto] buff@ + bs =~= bs by {}
        }
        while i < headers.len()
            invariant
                self.wf(),
                self.static_table@ == old(self).static_table@,
                self.huffman == old(self).huffman,
                self.dynamic_table.table_size == old(self).dynamic_table.table_size,
                hs == fields_view(headers@),
                whole == encode_all_spec(old(self).static_table@, old(self).dynamic_table@, old(self).dynamic_table.table_size as nat,
                    old(self).huffman, htype, hs),
                i <= headers@.len(),
                whole == match encode_all_spec(self.static_table@, self.dynamic_table@, self.dynamic_table.table_size as nat,
                    self.huffman, htype, hs.subrange(i as int, hs.len() as int)) {
                    Ok((bs, d)) => Ok((buff@ + bs, d)),
                    Err(e) => Err(e),
                },
            decreases headers@.len() - i,
        {
            let ghost rest = hs.subrange(i as int, hs.len() as int);
            let ghost before = buff@;
            proof {
                assert(rest.drop_first() =~= hs.subrange(i + 1, hs.len() as int));
                assert(rest[0] == hs[i as int]);
            }
            match self.encode(&mut buff, htype, headers[i].0.as_slice(), headers[i].1.as_slice(), None) {
                Ok(()) => {
                    proof {
                        assert forall|bs: Seq<u8>| #![auto] (before + (buff@.subrange(before.len() as int, buff@.len() as int)) + bs) =~= buff@ + bs by {}
                        assert forall|b: Seq<u8>, bs: Seq<u8>| #![auto] before + (b + bs) =~= (before + b) + bs by {}
                    }
                },
                Err(e) => {
                    return Err(e);
                },
            }
            i += 1;
        }
        proof {
            assert(hs.subrange(i as int, hs.len() as int) =~= Seq::<Field>::empty());
            assert(buff@ + Seq::<u8>::empty() =~= buff@);
        }
        Ok(buff)
    }

    /// Encodes a header list with literals that are not indexed.
    pub fn encode_all(&mut self, headers: &[(Vec<u8>, Vec<u8>)]) -> (r: Result<Vec<u8>, HpackError>)
        requires
            old(self).wf(),
        ensures
            final(self).wf(),
            final(self).static_table@ == old(self).static_table@,
            final(self).huffman == old(self).huffman,
            final(self).dynamic_table.table_size == old(self).dynamic_table.table_size,
            match encode_all_spec(old(self).static_table@, old(self).dynamic_table@, old(self).dynamic_table.table_size as nat,
                old(self).huffman, HeaderType::NotIndexed, fields_view(headers@)) {
                Ok((bytes, d)) => r matches Ok(b) && b@ == bytes && final(self).dynamic_table@ == d,
                Err(e) => r == Err::<Vec<u8>, HpackError>(e),
            },
    {
        self.encode_list(headers, HeaderType::NotIndexed)
    }

    /// Encodes a header list with literals added to the dynamic table.
    pub fn encode_all_indexed(&mut self, headers: &[(Vec<u8>, Vec<u8>)]) -> (r: Result<Vec<u8>, HpackError>)
        requires
            old(self).wf(),
        ensures
            final(self).wf(),
            final(self).static_table@ == old(self).static_table@,
            final(self).huffman == old(self).huffman,
            final(self).dynamic_table.table_size == old(self).dynamic_table.table_size,
            match encode_all_spec(old(self).static_table@, old(self).dynamic_table@, old(self).dynamic_table.table_size as nat,
                old(self).huffman, HeaderType::Indexed, fields_view(headers@)) {
                Ok((bytes, d)) => r matches Ok(b) && b@ == bytes && final(self).dynamic_table@ == d,
                Err(e) => r == Err::<Vec<u8>, HpackError>(e),
            },
    {
        self.encode_list(headers, HeaderType::Indexed)
    }
}

/// Whether two byte strings are equal.
pub fn bytes_eq(a: &[u8], b: &[u8]) -> (r: bool)
    ensures
        r == (a@ == b@),
{
    if a.len() != b.len() {
        return false;
    }
    let mut i: usize = 0;
    while i < a.len()
        invariant
            a@.len() == b@.len(),
            i <= a@.len(),
            forall|k: int| 0 <= k < i ==> a@[k] == b@[k],
        decreases a@.len() - i,
    {
        if a[i] != b[i] {
            return false;
        }
        i += 1;
    }
    assert(a@ =~= b@);
    true
}

} // verus!
