use vstd::prelude::*;
use crate::hpack::copy_bytes;
use crate::hpack::evicted;
use crate::hpack::fields_view;
use crate::hpack::DynamicTable;
use crate::hpack::Field;
use crate::hpack::HeaderType;
use crate::hpack::StaticTable;
use crate::huffman::Huffman;
use crate::integer::int_spec;
use crate::integer::read_int;
use crate::static_table::rfc_static_table;

verus! {

/// Entry `index` of a table indexed from one (RFC 7541 section 2.3.3).
pub open spec fn lookup(table: Seq<Field>, index: nat) -> Option<Field> {
    if 1 <= index <= table.len() {
        Some(table[index - 1])
    } else {
        None
    }
}

/// A string literal (RFC 7541 section 5.2) read at `pos`: its bytes, Huffman-decoded
/// when its flag is set, and the position after it.
pub open spec fn string_spec(h: Huffman, buf: Seq<u8>, pos: int) -> Option<(Seq<u8>, int)> {
    if pos < 0 || pos >= buf.len() {
        None
    } else {
        let huff = buf[pos] >= 128;
        match int_spec(buf, 7, pos) {
            None => None,
            Some((n, p)) => if p + n > buf.len() {
                None
            } else {
                let raw = buf.subrange(p, p + n);
                if huff {
                    match h.decode_spec(raw) {
                        Ok(d) => Some((d, p + n)),
                        Err(_) => None,
                    }
                } else {
                    Some((raw, p + n))
                }
            },
        }
    }
}

/// A literal field whose index has an N-bit prefix: its name (indexed, or a string
/// when the index is zero), its value and the position after it.
pub open spec fn literal_spec(table: Seq<Field>, h: Huffman, buf: Seq<u8>, prefix: nat, pos: int) -> Option<(Seq<u8>, Seq<u8>, int)> {
    match int_spec(buf, prefix, pos) {
        None => None,
        Some((idx, p)) => {
            let name = if idx == 0 {
                string_spec(h, buf, p)
            } else {
                match lookup(table, idx) {
                    Some(f) => Some((f.0, p)),
                    None => None,
                }
            };
            match name {
                None => None,
                Some((n, p1)) => match string_spec(h, buf, p1) {
                    None => None,
                    Some((v, p2)) => Some((n, v, p2)),
                },
            }
        },
    }
}

/// One representation (RFC 7541 section 6) decoded at `pos` with static table `st`,
/// dynamic table `dy` of maximum size `cap`: the kind, name and value, the position
/// after it, and the new dynamic table and maximum size.
#[verifier::opaque]
pub open spec fn decode_spec(st: Seq<Field>, dy: Seq<Field>, cap: nat, h: Huffman, buf: Seq<u8>, pos: int) -> Option<(HeaderType, Seq<u8>, Seq<u8>, int, Seq<Field>, nat)> {
    if pos < 0 || pos >= buf.len() {
        None
    } else {
        let first = buf[pos];
        let table = st + dy;
        if first >= 128 {
            match int_spec(buf, 7, pos) {
                None => None,
                Some((idx, p)) => match lookup(table, idx) {
                    Some(f) => Some((HeaderType::Lookup, f.0, f.1, p, dy, cap)),
                    None => None,
                },
            }
        } else if first >= 64 {
            match literal_spec(table, h, buf, 6, pos) {
                Some((n, v, p)) => Some((HeaderType::Indexed, n, v, p, evicted(seq![(n, v)] + dy, cap), cap)),
                None => None,
            }
        } else if first < 16 {
            match literal_spec(table, h, buf, 4, pos) {
                Some((n, v, p)) => Some((HeaderType::NotIndexed, n, v, p, dy, cap)),
                None => None,
            }
        } else if first < 32 {
            match literal_spec(table, h, buf, 4, pos) {
                Some((n, v, p)) => Some((HeaderType::NeverIndexed, n, v, p, dy, cap)),
                None => None,
            }
        } else {
            match int_spec(buf, 5, pos) {
                Some((size, p)) => Some((HeaderType::TableSizeChange, seq![], seq![], p, evicted(dy, size), size)),
                None => None,
            }
        }
    }
}

/// A whole header block decoded from `pos`: the fields in order (table size updates
/// give none), and the final dynamic table and maximum size.
pub open spec fn decode_all_spec(st: Seq<Field>, dy: Seq<Field>, cap: nat, h: Huffman, buf: Seq<u8>, pos: int) -> Option<(Seq<Field>, Seq<Field>, nat)>
    decreases buf.len() - pos,
{
    if pos >= buf.len() {
        Some((seq![], dy, cap))
    } else {
        match decode_spec(st, dy, cap, h, buf, pos) {
            None => None,
            Some((t, n, v, p, dy2, cap2)) => if p <= pos || p > buf.len() {
                None
            } else {
                match decode_all_spec(st, dy2, cap2, h, buf, p) {
                    None => None,
                    Some((fs, dy3, cap3)) => Some(
                        (if t == HeaderType::TableSizeChange { fs } else { seq![(n, v)] + fs }, dy3, cap3),
                    ),
                }
            },
        }
    }
}

/// Copies `buf[start..end]`.
fn sub_bytes(buf: &[u8], start: usize, end: usize) -> (r: Vec<u8>)
    requires
        start <= end <= buf@.len(),
    ensures
        r@ == buf@.subrange(start as int, end as int),
{
    let mut r: Vec<u8> = Vec::new();
    let mut i: usize = start;
    while i < end
        invariant
            start <= i <= end,
            end <= buf@.len(),
            r@ == buf@.subrange(start as int, i as int),
        decreases end - i,
    {
        r.push(buf[i]);
        assert(r@ =~= buf@.subrange(start as int, i + 1));
        i += 1;
    }
    r
}

pub struct Decoder<'a> {
    pub static_table: StaticTable<'a>,
    pub dynamic_table: DynamicTable,
    pub huffman: Huffman,
}

impl<'a> Decoder<'a> {
    pub open spec fn wf(&self) -> bool {
        &&& self.dynamic_table.wf()
        &&& self.huffman.wf()
    }

    /// The static table followed by the dynamic one, as indexed from one.
    pub open spec fn table(&self) -> Seq<Field> {
        self.static_table@ + self.dynamic_table@
    }

    /// A decoder with the static table of RFC 7541 and an empty dynamic table of
    /// maximum size `table_size`.
    pub fn new(table_size: usize) -> (r: Self)
        ensures
            r.wf(),
            r.static_table@ == rfc_static_table(),
            r.dynamic_table@ == Seq::<Field>::empty(),
            r.dynamic_table.table_size == table_size,
    {
        Self::with_static_table(table_size, StaticTable::rfc())
    }

    pub fn with_static_table(table_size: usize, static_table: StaticTable<'a>) -> (r: Self)
        ensures
            r.wf(),
            r.static_table@ == static_table@,
            r.dynamic_table@ == Seq::<Field>::empty(),
            r.dynamic_table.table_size == table_size,
    {
        Decoder { static_table, dynamic_table: DynamicTable::new(table_size), huffman: Huffman::new() }
    }

    /// Entry `index` of the static table followed by the dynamic one, from one.
    pub fn get(&self, index: usize) -> (r: Option<(&[u8], &[u8])>)
        ensures
            r matches Some(e) ==> lookup(self.table(), index as nat) == Some((e.0@, e.1@)),
            r is None ==> lookup(self.table(), index as nat) is None,
    {
        let ssize = self.static_table.len();
        let dsize = self.dynamic_table.len();
        if 1 <= index && index <= ssize {
            self.static_table.get(index - 1)
        } else if ssize < index && index - ssize <= dsize {
            self.dynamic_table.get(index - 1 - ssize)
        } else {
            None
        }
    }

    /// Reads an integer with an N-bit prefix (RFC 7541 section 5.1).
    pub fn read_int(buf: &[u8], prefix: u8, pos: &mut usize) -> (r: Option<usize>)
        requires
            1 <= prefix <= 8,
        ensures
            r matches Some(v) ==> int_spec(buf@, prefix as nat, *old(pos) as int) == Some((v as nat, *final(pos) as int)),
            r is None ==> int_spec(buf@, prefix as nat, *old(pos) as int) is None && *final(pos) == *old(pos),
    {
        read_int(buf, prefix, pos)
    }

    /// Reads a string literal (RFC 7541 section 5.2) at `*pos`, moving `*pos` past it.
    pub fn read_string(&self, buf: &[u8], pos: &mut usize) -> (r: Option<Vec<u8>>)
        requires
            self.wf(),
        ensures
            r matches Some(v) ==> string_spec(self.huffman, buf@, *old(pos) as int) == Some((v@, *final(pos) as int)),
            r is Some ==> *old(pos) < *final(pos) <= buf@.len(),
            r is None ==> string_spec(self.huffman, buf@, *old(pos) as int) is None && *final(pos) == *old(pos),
    {
        let start = *pos;
        if start >= buf.len() {
            return None;
        }
        let huff = buf[start] >= 128;
        let mut p = start;
        let length = match read_int(buf, 7, &mut p) {
            Some(n) => n,
            None => {
                return None;
            },
        };
        if p > buf.len() || length > buf.len() - p {
            return None;
        }
        let raw = sub_bytes(buf, p, p + length);
        if huff {
            match self.huffman.decode(raw.as_slice()) {
                Ok(d) => {
                    *pos = p + length;
                    Some(d)
                },
                Err(_) => None,
            }
        } else {
            *pos = p + length;
            Some(raw)
        }
    }

    /// A literal field with an N-bit prefix index at `*pos`.
    fn read_literal(&self, buf: &[u8], prefix: u8, pos: &mut usize) -> (r: Option<(Vec<u8>, Vec<u8>)>)
        requires
            self.wf(),
            1 <= prefix <= 8,
        ensures
            r matches Some(f) ==> literal_spec(self.table(), self.huffman, buf@, prefix as nat, *old(pos) as int) == Some((f.0@, f.1@, *final(pos) as int)),
            r is None ==> literal_spec(self.table(), self.huffman, buf@, prefix as nat, *old(pos) as int) is None,
            r is Some ==> *old(pos) < *final(pos) <= buf@.len(),
    {
        let mut p = *pos;
        let index = match read_int(buf, prefix, &mut p) {
            Some(i) => i,
            None => {
                return None;
            },
        };
        let name = if index == 0 {
            match self.read_string(buf, &mut p) {
                Some(n) => n,
                None => {
                    return None;
                },
            }
        } else {
            match self.get(index) {
                Some(e) => copy_bytes(e.0),
                None => {
                    return None;
                },
            }
        };
        let value = match self.read_string(buf, &mut p) {
            Some(v) => v,
            None => {
                return None;
            },
        };
        *pos = p;
        Some((name, value))
    }

    /// Decodes one representation (RFC 7541 section 6) at `*pos`, moving `*pos` past
    /// it and updating the dynamic table; on `None` nothing changes.
    pub fn decode(&mut self, buf: &[u8], pos: &mut usize) -> (r: Option<(HeaderType, Vec<u8>, Vec<u8>)>)
        requires
            old(self).wf(),
        ensures
            final(self).wf(),
            final(self).static_table@ == old(self).static_table@,
            final(self).huffman == old(self).huffman,
            r matches Some(d) ==> decode_spec(old(self).static_table@, old(self).dynamic_table@, old(self).dynamic_table.table_size as nat,
                old(self).huffman, buf@, *old(pos) as int) == Some((d.0, d.1@, d.2@, *final(pos) as int,
                final(self).dynamic_table@, final(self).dynamic_table.table_size as nat)),
            r is Some ==> *old(pos) < *final(pos) <= buf@.len(),
            r is None ==> decode_spec(old(self).static_table@, old(self).dynamic_table@, old(self).dynamic_table.table_size as nat,
                old(self).huffman, buf@, *old(pos) as int) is None,
    {
        proof {
            reveal(decode_spec);
        }
        let start = *pos;
        if start >= buf.len() {
            return None;
        }
        let first = buf[start];
        let mut p = start;
        if first >= 128 {
            let index = match read_int(buf, 7, &mut p) {
                Some(i) => i,
                None => {
                    return None;
                },
            };
            let (name, value) = match self.get(index) {
                Some(e) => (copy_bytes(e.0), copy_bytes(e.1)),
                None => {
                    return None;
                },
            };
            *pos = p;
            Some((HeaderType::Lookup, name, value))
        } else if first >= 64 {
            match self.read_literal(buf, 6, &mut p) {
                Some((name, value)) => {
                    let entry = (copy_bytes(name.as_slice()), copy_bytes(value.as_slice()));
                    self.dynamic_table.add(entry);
                    *pos = p;
                    Some((HeaderType::Indexed, name, value))
                },
                None => None,
            }
        } else if first < 16 {
            match self.read_literal(buf, 4, &mut p) {
                Some((name, value)) => {
                    *pos = p;
                    Some((HeaderType::NotIndexed, name, value))
                },
                None => None,
            }
        } else if first < 32 {
            match self.read_literal(buf, 4, &mut p) {
                Some((name, value)) => {
                    *pos = p;
                    Some((HeaderType::NeverIndexed, name, value))
                },
                None => None,
            }
        } else {
            match read_int(buf, 5, &mut p) {
                Some(new_size) => {
                    self.dynamic_table.resize(new_size);
                    *pos = p;
                    Some((HeaderType::TableSizeChange, Vec::new(), Vec::new()))
                },
                None => None,
            }
        }
    }

    /// Decodes a whole header block; table size updates give no field.
    pub fn decode_all(&mut self, buf: &[u8]) -> (r: Option<Vec<(Vec<u8>, Vec<u8>)>>)
        requires
            old(self).wf(),
        ensures
            final(self).wf(),
            final(self).static_table@ == old(self).static_table@,
            r matches Some(fs) ==> decode_all_spec(old(self).static_table@, old(self).dynamic_table@, old(self).dynamic_table.table_size as nat,
                old(self).huffman, buf@, 0) == Some((fields_view(fs@), final(self).dynamic_table@, final(self).dynamic_table.table_size as nat)),
            r is None ==> decode_all_spec(old(self).static_table@, old(self).dynamic_table@, old(self).dynamic_table.table_size as nat,
                old(self).huffman, buf@, 0) is None,
    {
        let mut dec: Vec<(Vec<u8>, Vec<u8>)> = Vec::new();
        let mut pos: usize = 0;
        let ghost st = self.static_table@;
        let ghost h = self.huffman;
        let ghost whole = decode_all_spec(st, self.dynamic_table@, self.dynamic_table.table_size as nat, h, buf@, 0);
        while pos < buf.len()
            invariant
                self.wf(),
                self.static_table@ == st,
                st == old(self).static_table@,
                whole == decode_all_spec(old(self).static_table@, old(self).dynamic_table@, old(self).dynamic_table.table_size as nat,
                    old(self).huffman, buf@, 0),
                self.huffman == h,
                h == old(self).huffman,
                pos <= buf@.len(),
                whole == match decode_all_spec(st, self.dynamic_table@, self.dynamic_table.table_size as nat, h, buf@, pos as int) {
                    None => None,
                    Some((fs, d, c)) => Some((fields_view(dec@) + fs, d, c)),
                },
            decreases buf@.len() - pos,
        {
            let ghost before = pos as int;
            let ghost out = fields_view(dec@);
            match self.decode(buf, &mut pos) {
                Some((t, h2, v)) => {
                    if t != HeaderType::TableSizeChange {
                        dec.push((h2, v));
                        proof {
                            assert(fields_view(dec@) =~= out + seq![(h2@, v@)]);
                            assert forall|fs: Seq<Field>| #![auto] (out + seq![(h2@, v@)]) + fs =~= out + (seq![(h2@, v@)] + fs) by {}
                        }
                    }
                },
                None => {
                    return None;
                },
            }
        }
        proof {
            assert(fields_view(dec@) + Seq::<Field>::empty() =~= fields_view(dec@));
        }
        Some(dec)
    }
}

} // verus!
