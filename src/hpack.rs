use vstd::prelude::*;
use std::collections::VecDeque;
use crate::static_table::rfc_static_table;
use crate::static_table::static_table_entry;
use crate::static_table::STATIC_TABLE_LEN;
use crate::huffman::bits_of;
use vstd::bits::lemma_u8_shr_is_div;

verus! {

/// A header field as a pair of byte strings.
pub type Field = (Seq<u8>, Seq<u8>);

pub open spec fn fields_view(v: Seq<(Vec<u8>, Vec<u8>)>) -> Seq<Field> {
    v.map_values(|e: (Vec<u8>, Vec<u8>)| (e.0@, e.1@))
}

/// Size of one entry in the sense of RFC 7541 section 4.1.
pub open spec fn entry_size(e: Field) -> nat {
    e.0.len() + e.1.len() + 32
}

/// Total size of the entries of a table.
pub open spec fn entries_size(s: Seq<Field>) -> nat
    decreases s.len(),
{
    if s.len() == 0 {
        0
    } else {
        entry_size(s[0]) + entries_size(s.drop_first())
    }
}

/// The entries left of `s` once the oldest (last) ones are dropped until the
/// total size is at most `cap`.
pub open spec fn evicted(s: Seq<Field>, cap: nat) -> Seq<Field>
    decreases s.len(),
{
    if entries_size(s) <= cap || s.len() == 0 {
        s
    } else {
        evicted(s.drop_last(), cap)
    }
}

pub proof fn lemma_entries_size_drop_last(s: Seq<Field>)
    requires
        s.len() > 0,
    ensures
        entries_size(s) == entries_size(s.drop_last()) + entry_size(s.last()),
    decreases s.len(),
{
    if s.len() == 1 {
        assert(s.drop_first().len() == 0);
        assert(s.drop_last().len() == 0);
        assert(entries_size(s.drop_first()) == 0);
        assert(entries_size(s.drop_last()) == 0);
    } else {
        lemma_entries_size_drop_last(s.drop_first());
        assert(s.drop_first().drop_last() =~= s.drop_last().drop_first());
        assert(s.drop_last()[0] == s[0]);
        assert(s.drop_first().last() == s.last());
        assert(entries_size(s.drop_last()) == entry_size(s.drop_last()[0]) + entries_size(s.drop_last().drop_first()));
    }
}

/// Every entry takes at least 32 octets.
pub proof fn lemma_entries_size_lower(s: Seq<Field>)
    ensures
        entries_size(s) >= 32 * s.len(),
    decreases s.len(),
{
    if s.len() > 0 {
        lemma_entries_size_lower(s.drop_first());
    }
}

/// The size of a table with a new entry in front.
pub proof fn lemma_entries_size_cons(e: Field, s: Seq<Field>)
    ensures
        entries_size(seq![e] + s) == entry_size(e) + entries_size(s),
{
    let t = seq![e] + s;
    assert(t.drop_first() =~= s);
    assert(t[0] == e);
}

pub proof fn lemma_evicted_size(s: Seq<Field>, cap: nat)
    ensures
        entries_size(evicted(s, cap)) <= cap,
        evicted(s, cap).len() <= s.len(),
    decreases s.len(),
{
    if entries_size(s) <= cap {
    } else if s.len() == 0 {
    } else {
        lemma_evicted_size(s.drop_last(), cap);
    }
}

proof fn lemma_evicted_all(e: Field, s: Seq<Field>, cap: nat)
    requires
        entry_size(e) > cap,
    ensures
        evicted(seq![e] + s, cap) == Seq::<Field>::empty(),
    decreases s.len(),
{
    let t = seq![e] + s;
    lemma_entries_size_cons(e, s);
    if s.len() == 0 {
        assert(t.drop_last() =~= Seq::<Field>::empty());
        assert(evicted(t.drop_last(), cap) == t.drop_last());
    } else {
        assert(t.drop_last() =~= seq![e] + s.drop_last());
        lemma_evicted_all(e, s.drop_last(), cap);
    }
}

#[derive(Debug, Clone, Copy, PartialEq, Eq, Structural)]
pub enum HeaderType {
    Lookup,
    Indexed,
    NotIndexed,
    NeverIndexed,
    TableSizeChange,
}

#[derive(Debug, Clone, Copy, PartialEq, Eq, Structural)]
pub enum HpackError {
    InvalidHeaderField,
    InvalidHeaderType,
}

/// Clones a list of header fields.
fn clone_fields(b: &[(Vec<u8>, Vec<u8>)]) -> (r: Vec<(Vec<u8>, Vec<u8>)>)
    ensures
        fields_view(r@) == fields_view(b@),
{
    let mut r: Vec<(Vec<u8>, Vec<u8>)> = Vec::new();
    let mut i: usize = 0;
    while i < b.len()
        invariant
            i <= b@.len(),
            r@.len() == i,
            forall|k: int| 0 <= k < i ==> (#[trigger] r@[k]).0@ == b@[k].0@ && r@[k].1@ == b@[k].1@,
        decreases b@.len() - i,
    {
        let n = copy_bytes(b[i].0.as_slice());
        let v = copy_bytes(b[i].1.as_slice());
        r.push((n, v));
        i += 1;
    }
    assert(fields_view(r@) =~= fields_view(b@));
    r
}

/// A fresh vector holding the bytes of `s`.
pub fn copy_bytes(s: &[u8]) -> (r: Vec<u8>)
    ensures
        r@ == s@,
{
    let mut r: Vec<u8> = Vec::new();
    r.extend_from_slice(s);
    assert(r@ =~= s@);
    r
}

/// The static table of RFC 7541 Appendix A, built fresh.
pub fn static_table_entries() -> (r: Vec<(Vec<u8>, Vec<u8>)>)
    ensures
        fields_view(r@) == rfc_static_table(),
{
    let mut r: Vec<(Vec<u8>, Vec<u8>)> = Vec::new();
    let mut i: usize = 0;
    while i < STATIC_TABLE_LEN
        invariant
            i <= STATIC_TABLE_LEN,
            r@.len() == i,
            forall|k: int| 0 <= k < i ==> ((#[trigger] r@[k]).0@, r@[k].1@) == rfc_static_table()[k],
        decreases STATIC_TABLE_LEN - i,
    {
        r.push(static_table_entry(i));
        i += 1;
    }
    assert(fields_view(r@) =~= rfc_static_table());
    r
}

#[derive(Debug)]
pub enum StaticTable<'a> {
    Borrow(&'a [(Vec<u8>, Vec<u8>)]),
    Owned(Vec<(Vec<u8>, Vec<u8>)>),
}

impl<'a> View for StaticTable<'a> {
    type V = Seq<Field>;

    open spec fn view(&self) -> Seq<Field> {
        match self {
            StaticTable::Borrow(b) => fields_view(b@),
            StaticTable::Owned(v) => fields_view(v@),
        }
    }
}

impl<'a> StaticTable<'a> {
    pub fn is_owned(&self) -> (r: bool)
        ensures
            r == (self is Owned),
    {
        match self {
            StaticTable::Owned(_) => true,
            _ => false,
        }
    }

    pub fn is_borrow(&self) -> (r: bool)
        ensures
            r == (self is Borrow),
    {
        match self {
            StaticTable::Borrow(_) => true,
            _ => false,
        }
    }

    /// Turns a borrowed table into an owned copy with the same entries.
    pub fn to_owned(&mut self)
        ensures
            final(self)@ == old(self)@,
            (*final(self)) is Owned,
    {
        let copy = match self {
            StaticTable::Borrow(b) => Some(clone_fields(b)),
            StaticTable::Owned(_) => None,
        };
        if let Some(c) = copy {
            *self = StaticTable::Owned(c);
        }
    }

    pub fn into_owned(self) -> (r: Self)
        ensures
            r@ == self@,
            r is Owned,
    {
        match self {
            StaticTable::Borrow(b) => StaticTable::Owned(clone_fields(b)),
            StaticTable::Owned(v) => StaticTable::Owned(v),
        }
    }

    /// The entry at zero-based `index`.
    pub fn get(&self, index: usize) -> (r: Option<(&[u8], &[u8])>)
        ensures
            index < self@.len() <==> r.is_some(),
            r matches Some(e) ==> (e.0@, e.1@) == self@[index as int],
    {
        match self {
            StaticTable::Borrow(b) => {
                if index < b.len() {
                    let e = &b[index];
                    Some((e.0.as_slice(), e.1.as_slice()))
                } else {
                    None
                }
            },
            StaticTable::Owned(v) => {
                if index < v.len() {
                    let e = &v[index];
                    Some((e.0.as_slice(), e.1.as_slice()))
                } else {
                    None
                }
            },
        }
    }

    pub fn len(&self) -> (r: usize)
        ensures
            r == self@.len(),
    {
        match self {
            StaticTable::Borrow(b) => b.len(),
            StaticTable::Owned(v) => v.len(),
        }
    }

    /// The static table of RFC 7541 Appendix A.
    pub fn rfc() -> (r: Self)
        ensures
            r@ == rfc_static_table(),
    {
        StaticTable::Owned(static_table_entries())
    }
}

#[derive(Debug)]
pub struct DynamicTable {
    pub size: usize,
    pub table_size: usize,
    pub table: VecDeque<(Vec<u8>, Vec<u8>)>,
}

impl View for DynamicTable {
    type V = Seq<Field>;

    /// Entries, most recently inserted first.
    open spec fn view(&self) -> Seq<Field> {
        fields_view(self.table@)
    }
}

impl DynamicTable {
    /// `size` is the size of the entries, and never exceeds `table_size`.
    pub open spec fn wf(&self) -> bool {
        &&& self.size == entries_size(self@)
        &&& self.size <= self.table_size
    }

    pub fn new(table_size: usize) -> (r: Self)
        ensures
            r.wf(),
            r@ == Seq::<Field>::empty(),
            r.table_size == table_size,
    {
        let r = DynamicTable { size: 0, table_size, table: VecDeque::new() };
        assert(r@ =~= Seq::<Field>::empty());
        r
    }

    /// Inserts `header` as the newest entry, then drops the oldest entries until the
    /// table fits its size (RFC 7541 section 4.4).
    pub fn add(&mut self, header: (Vec<u8>, Vec<u8>))
        requires
            old(self).wf(),
        ensures
            final(self).wf(),
            final(self).table_size == old(self).table_size,
            final(self)@ == evicted(seq![(header.0@, header.1@)] + old(self)@, old(self).table_size as nat),
    {
        let ghost e: Field = (header.0@, header.1@);
        let ghost start = self@;
        let cap = self.table_size;
        let nlen = header.0.len();
        let vlen = header.1.len();
        if nlen > cap || vlen > cap - nlen || 32 > cap - nlen - vlen {
            proof {
                lemma_evicted_all(e, start, cap as nat);
            }
            self.table.clear();
            self.size = 0;
            assert(self@ =~= Seq::<Field>::empty());
            return;
        }
        let esize = nlen + vlen + 32;
        while self.size > cap - esize
            invariant
                self.wf(),
                self.table_size == cap,
                esize == entry_size(e),
                esize <= cap,
                evicted(seq![e] + start, cap as nat) == evicted(seq![e] + self@, cap as nat),
            decreases self.table@.len(),
        {
            let ghost before = self@;
            proof {
                if before.len() == 0 {
                    assert(entries_size(before) == 0);
                }
                lemma_entries_size_drop_last(before);
                let t = seq![e] + before;
                lemma_entries_size_cons(e, before);
                assert(t.drop_last() =~= seq![e] + before.drop_last());
            }
            let popped = self.table.pop_back();
            match popped {
                Some(h) => {
                    assert(self@ =~= before.drop_last());
                    self.size = self.size - (h.0.len() + h.1.len() + 32);
                },
                None => {
                    assert(false);
                },
            }
        }
        let ghost cur = self@;
        self.table.push_front(header);
        self.size = self.size + esize;
        proof {
            assert(self@ =~= seq![e] + cur);
            lemma_entries_size_cons(e, cur);
        }
    }

    /// Drops the oldest entries until the size is at most `table_size`.
    pub fn evict(&mut self)
        requires
            old(self).size == entries_size(old(self)@),
        ensures
            final(self).wf(),
            final(self).table_size == old(self).table_size,
            final(self)@ == evicted(old(self)@, old(self).table_size as nat),
    {
        let ghost start = self@;
        while self.size > self.table_size
            invariant
                self.size == entries_size(self@),
                self.table_size == old(self).table_size,
                evicted(start, self.table_size as nat) == evicted(self@, self.table_size as nat),
            decreases self.table@.len(),
        {
            let ghost before = self@;
            proof {
                if before.len() == 0 {
                    assert(entries_size(before) == 0);
                }
                lemma_entries_size_drop_last(before);
            }
            let popped = self.table.pop_back();
            match popped {
                Some(h) => {
                    assert(self@ =~= before.drop_last());
                    self.size = self.size - (h.0.len() + h.1.len() + 32);
                },
                None => {
                    assert(false);
                },
            }
        }
    }

    /// Sets a new maximum size and evicts what no longer fits.
    pub fn resize(&mut self, new_size: usize)
        requires
            old(self).wf(),
        ensures
            final(self).wf(),
            final(self).table_size == new_size,
            final(self)@ == evicted(old(self)@, new_size as nat),
    {
        self.table_size = new_size;
        self.evict();
    }

    pub fn len(&self) -> (r: usize)
        ensures
            r == self@.len(),
    {
        self.table.len()
    }

    /// The entry at zero-based `index`, newest first.
    pub fn get(&self, index: usize) -> (r: Option<(&[u8], &[u8])>)
        ensures
            index < self@.len() <==> r.is_some(),
            r matches Some(e) ==> (e.0@, e.1@) == self@[index as int],
    {
        if index < self.table.len() {
            let e = &self.table[index];
            Some((e.0.as_slice(), e.1.as_slice()))
        } else {
            None
        }
    }
}

/// Walks the bits of a byte string, most significant bit of each byte first.
pub struct Biterator {
    buff: Vec<u8>,
    index: usize,
}

impl Biterator {
    pub closed spec fn bits(&self) -> Seq<bool> {
        bits_of(self.buff@)
    }

    pub closed spec fn position(&self) -> nat {
        self.index as nat
    }

    pub closed spec fn wf(&self) -> bool {
        &&& self.buff@.len() <= usize::MAX / 8
        &&& self.index <= 8 * self.buff@.len()
    }

    pub fn new(bytes: &[u8]) -> (r: Self)
        requires
            bytes@.len() <= usize::MAX / 8,
        ensures
            r.wf(),
            r.bits() == bits_of(bytes@),
            r.position() == 0,
    {
        Biterator { buff: copy_bytes(bytes), index: 0 }
    }

    /// The next bit, if any is left.
    pub fn next(&mut self) -> (r: Option<bool>)
        requires
            old(self).wf(),
        ensures
            final(self).wf(),
            final(self).bits() == old(self).bits(),
            old(self).position() < old(self).bits().len() ==> r == Some(old(self).bits()[old(self).position() as int])
                && final(self).position() == old(self).position() + 1,
            old(self).position() >= old(self).bits().len() ==> r.is_none() && final(self).position() == old(self).position(),
    {
        let byte_index = self.index / 8;
        if byte_index >= self.buff.len() {
            return None;
        }
        let byte = self.buff[byte_index];
        let shift = 7 - (self.index % 8) as u8;
        proof {
            lemma_u8_shr_is_div(byte, shift);
        }
        let bit = (byte >> shift) % 2 == 1;
        self.index = self.index + 1;
        Some(bit)
    }

    /// All the bits that are left.
    pub fn to_vec(&mut self) -> (r: Vec<bool>)
        requires
            old(self).wf(),
        ensures
            final(self).wf(),
            r@ == old(self).bits().subrange(old(self).position() as int, old(self).bits().len() as int),
    {
        let mut r: Vec<bool> = Vec::new();
        let ghost start = self.index as int;
        let ghost total = self.bits().len() as int;
        let ghost bits = self.bits();
        if self.index / 8 >= self.buff.len() {
            assert(bits.subrange(start, total) =~= Seq::<bool>::empty());
            return r;
        }
        while self.index / 8 < self.buff.len()
            invariant
                self.wf(),
                self.bits() == bits,
                total == bits.len(),
                0 <= start <= self.index <= total,
                r@ == bits.subrange(start, self.index as int),
            decreases total - self.index,
        {
            assert(self.index < total);
            let ghost idx = self.index as int;
            let b = self.next();
            match b {
                Some(x) => {
                    assert(x == bits[idx]);
                    r.push(x);
                    assert(r@ =~= bits.subrange(start, self.index as int));
                },
                None => {
                    assert(false);
                },
            }
        }
        r
    }
}

} // verus!
