use vstd::prelude::*;

verus! {

#[derive(Debug, Clone, Copy, PartialEq, Eq, Structural)]
pub struct Http2Settings {
    pub header_table_size: Option<u32>,
    pub enable_push: Option<u32>,
    pub max_concurrent_streams: Option<u32>,
    pub initial_window_size: Option<u32>,
    pub max_frame_size: Option<u32>,
    pub max_header_list_size: Option<u32>,
}

/// The 16-bit identifier and 32-bit value of the `i`-th six-byte setting of `buf`.
pub open spec fn raw_setting(buf: Seq<u8>, i: int) -> (u16, u32) {
    let b = buf.subrange(6 * i, 6 * i + 6);
    (
        (b[0] as nat * 256 + b[1] as nat) as u16,
        (b[2] as nat * 16777216 + b[3] as nat * 65536 + b[4] as nat * 256 + b[5] as nat) as u32,
    )
}

/// The settings that a list of `(identifier, value)` pairs sets over `s`, later pairs
/// overriding earlier ones and unknown identifiers ignored.
pub open spec fn apply_settings(s: Http2Settings, entries: Seq<(u16, u32)>) -> Http2Settings
    decreases entries.len(),
{
    if entries.len() == 0 {
        s
    } else {
        apply_setting(apply_settings(s, entries.drop_last()), entries.last())
    }
}

pub open spec fn apply_setting(s: Http2Settings, e: (u16, u32)) -> Http2Settings {
    let (id, val) = e;
    if id == 1 {
        Http2Settings { header_table_size: Some(val), ..s }
    } else if id == 2 {
        Http2Settings { enable_push: Some(val), ..s }
    } else if id == 3 {
        Http2Settings { max_concurrent_streams: Some(val), ..s }
    } else if id == 4 {
        Http2Settings { initial_window_size: Some(val), ..s }
    } else if id == 5 {
        Http2Settings { max_frame_size: Some(val), ..s }
    } else if id == 6 {
        Http2Settings { max_header_list_size: Some(val), ..s }
    } else {
        s
    }
}

/// One setting as six bytes, or nothing when the field is absent.
pub open spec fn setting_bytes(id: u8, val: Option<u32>) -> Seq<u8> {
    match val {
        Some(v) => seq![0u8, id, (v / 16777216) as u8, ((v / 65536) % 256) as u8, ((v / 256) % 256) as u8, (v % 256) as u8],
        None => seq![],
    }
}

/// The settings a SETTINGS payload sets, in order; none when its length is not a
/// multiple of six.
pub open spec fn settings_of(buf: Seq<u8>) -> Http2Settings {
    if buf.len() % 6 == 0 {
        apply_settings(empty_settings(), Seq::new((buf.len() / 6) as nat, |i: int| raw_setting(buf, i)))
    } else {
        empty_settings()
    }
}

pub open spec fn empty_settings() -> Http2Settings {
    Http2Settings {
        header_table_size: None,
        enable_push: None,
        max_concurrent_streams: None,
        initial_window_size: None,
        max_frame_size: None,
        max_header_list_size: None,
    }
}

impl Http2Settings {
    pub fn empty() -> (r: Self)
        ensures
            r == empty_settings(),
    {
        Http2Settings {
            header_table_size: None,
            enable_push: None,
            max_concurrent_streams: None,
            initial_window_size: None,
            max_frame_size: None,
            max_header_list_size: None,
        }
    }

    /// The `(identifier, value)` pairs of a SETTINGS payload (RFC 7540 section 6.5.1);
    /// `None` when its length is not a multiple of six.
    pub fn from_raw(buf: &[u8]) -> (r: Option<Vec<(u16, u32)>>)
        ensures
            r.is_some() == (buf@.len() % 6 == 0),
            r matches Some(v) ==> v@.len() == buf@.len() / 6
                && forall|i: int| 0 <= i < v@.len() ==> #[trigger] v@[i] == raw_setting(buf@, i),
    {
        if buf.len() % 6 != 0 {
            return None;
        }
        let len = buf.len();
        let n = len / 6;
        let mut total: Vec<(u16, u32)> = Vec::new();
        let mut i: usize = 0;
        while i < n
            invariant
                n == buf@.len() / 6,
                len == buf@.len(),
                buf@.len() % 6 == 0,
                i <= n,
                total@.len() == i,
                forall|k: int| 0 <= k < i ==> #[trigger] total@[k] == raw_setting(buf@, k),
            decreases n - i,
        {
            let o = 6 * i;
            let sid: u16 = buf[o] as u16 * 256 + buf[o + 1] as u16;
            let val: u32 = buf[o + 2] as u32 * 16777216 + buf[o + 3] as u32 * 65536 + buf[o + 4] as u32 * 256
                + buf[o + 5] as u32;
            total.push((sid, val));
            i += 1;
        }
        Some(total)
    }

    /// The settings of a SETTINGS payload; an empty set when the payload is malformed.
    pub fn from(buf: &[u8]) -> (r: Self)
        ensures
            r == settings_of(buf@),
    {
        let mut sett = Self::empty();
        match Self::from_raw(buf) {
            Some(rset) => {
                let ghost entries = Seq::new((buf@.len() / 6) as nat, |i: int| raw_setting(buf@, i));
                assert(rset@ =~= entries);
                let mut i: usize = 0;
                while i < rset.len()
                    invariant
                        rset@ == entries,
                        i <= rset@.len(),
                        sett == apply_settings(empty_settings(), entries.subrange(0, i as int)),
                    decreases rset@.len() - i,
                {
                    let (id, val) = rset[i];
                    if id == 1 {
                        sett.header_table_size = Some(val);
                    } else if id == 2 {
                        sett.enable_push = Some(val);
                    } else if id == 3 {
                        sett.max_concurrent_streams = Some(val);
                    } else if id == 4 {
                        sett.initial_window_size = Some(val);
                    } else if id == 5 {
                        sett.max_frame_size = Some(val);
                    } else if id == 6 {
                        sett.max_header_list_size = Some(val);
                    }
                    proof {
                        assert(entries.subrange(0, i + 1).drop_last() =~= entries.subrange(0, i as int));
                    }
                    i += 1;
                }
                assert(entries.subrange(0, rset@.len() as int) =~= entries);
            },
            None => {},
        }
        sett
    }

    /// The SETTINGS payload of the fields present, in identifier order.
    pub fn to_vec(&self) -> (r: Vec<u8>)
        ensures
            r@ == setting_bytes(1, self.header_table_size) + setting_bytes(2, self.enable_push)
                + setting_bytes(3, self.max_concurrent_streams) + setting_bytes(4, self.initial_window_size)
                + setting_bytes(5, self.max_frame_size) + setting_bytes(6, self.max_header_list_size),
    {
        let mut res: Vec<u8> = Vec::new();
        push_setting(&mut res, 1, self.header_table_size);
        push_setting(&mut res, 2, self.enable_push);
        push_setting(&mut res, 3, self.max_concurrent_streams);
        push_setting(&mut res, 4, self.initial_window_size);
        push_setting(&mut res, 5, self.max_frame_size);
        push_setting(&mut res, 6, self.max_header_list_size);
        assert(res@ =~= setting_bytes(1, self.header_table_size) + setting_bytes(2, self.enable_push)
            + setting_bytes(3, self.max_concurrent_streams) + setting_bytes(4, self.initial_window_size)
            + setting_bytes(5, self.max_frame_size) + setting_bytes(6, self.max_header_list_size));
        res
    }
}

fn push_setting(res: &mut Vec<u8>, id: u8, val: Option<u32>)
    ensures
        final(res)@ == old(res)@ + setting_bytes(id, val),
{
    let ghost start = res@;
    if let Some(v) = val {
        res.push(0);
        res.push(id);
        res.push((v / 16777216) as u8);
        res.push(((v / 65536) % 256) as u8);
        res.push(((v / 256) % 256) as u8);
        res.push((v % 256) as u8);
    }
    assert(res@ =~= start + setting_bytes(id, val));
}

impl Default for Http2Settings {
    /// The initial values of RFC 7540 section 6.5.2, with no limit on concurrent
    /// streams or header list size.
    fn default() -> (r: Self)
        ensures
            r == (Http2Settings {
                header_table_size: Some(4096),
                enable_push: Some(1),
                max_concurrent_streams: None,
                initial_window_size: Some(65535),
                max_frame_size: Some(65535),
                max_header_list_size: None,
            }),
    {
        Http2Settings {
            header_table_size: Some(4096),
            enable_push: Some(1),
            max_concurrent_streams: None,
            initial_window_size: Some(65535),
            max_frame_size: Some(65535),
            max_header_list_size: None,
        }
    }
}

} // verus!
