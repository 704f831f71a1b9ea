use vstd::prelude::*;

verus! {

/// The static table of RFC 7541 Appendix A, zero-based.
pub open spec fn rfc_static_entry(i: usize) -> (Seq<u8>, Seq<u8>) {
    match i {
        0 => (seq![58, 97, 117, 116, 104, 111, 114, 105, 116, 121], seq![]),
        1 => (seq![58, 109, 101, 116, 104, 111, 100], seq![71, 69, 84]),
        2 => (seq![58, 109, 101, 116, 104, 111, 100], seq![80, 79, 83, 84]),
        3 => (seq![58, 112, 97, 116, 104], seq![47]),
        4 => (seq![58, 112, 97, 116, 104], seq![47, 105, 110, 100, 101, 120, 46, 104, 116, 109, 108]),
        5 => (seq![58, 115, 99, 104, 101, 109, 101], seq![104, 116, 116, 112]),
        6 => (seq![58, 115, 99, 104, 101, 109, 101], seq![104, 116, 116, 112, 115]),
        7 => (seq![58, 115, 116, 97, 116, 117, 115], seq![50, 48, 48]),
        8 => (seq![58, 115, 116, 97, 116, 117, 115], seq![50, 48, 52]),
        9 => (seq![58, 115, 116, 97, 116, 117, 115], seq![50, 48, 54]),
        10 => (seq![58, 115, 116, 97, 116, 117, 115], seq![51, 48, 52]),
        11 => (seq![58, 115, 116, 97, 116, 117, 115], seq![52, 48, 48]),
        12 => (seq![58, 115, 116, 97, 116, 117, 115], seq![52, 48, 52]),
        13 => (seq![58, 115, 116, 97, 116, 117, 115], seq![53, 48, 48]),
        14 => (seq![97, 99, 99, 101, 112, 116, 45], seq![]),
        15 => (seq![97, 99, 99, 101, 112, 116, 45, 101, 110, 99, 111, 100, 105, 110, 103], seq![103, 122, 105, 112, 44, 32, 100, 101, 102, 108, 97, 116, 101]),
        16 => (seq![97, 99, 99, 101, 112, 116, 45, 108, 97, 110, 103, 117, 97, 103, 101], seq![]),
        17 => (seq![97, 99, 99, 101, 112, 116, 45, 114, 97, 110, 103, 101, 115], seq![]),
        18 => (seq![97, 99, 99, 101, 112, 116], seq![]),
        19 => (seq![97, 99, 99, 101, 115, 115, 45, 99, 111, 110, 116, 114, 111, 108, 45, 97, 108, 108, 111, 119, 45, 111, 114, 105, 103, 105, 110], seq![]),
        20 => (seq![97, 103, 101], seq![]),
        21 => (seq![97, 108, 108, 111, 119], seq![]),
        22 => (seq![97, 117, 116, 104, 111, 114, 105, 122, 97, 116, 105, 111, 110], seq![]),
        23 => (seq![99, 97, 99, 104, 101, 45, 99, 111, 110, 116, 114, 111, 108], seq![]),
        24 => (seq![99, 111, 110, 116, 101, 110, 116, 45, 100, 105, 115, 112, 111, 115, 105, 116, 105, 111, 110], seq![]),
        25 => (seq![99, 111, 110, 116, 101, 110, 116, 45, 101, 110, 99, 111, 100, 105, 110, 103], seq![]),
        26 => (seq![99, 111, 110, 116, 101, 110, 116, 45, 108, 97, 110, 103, 117, 97, 103, 101], seq![]),
        27 => (seq![99, 111, 110, 116, 101, 110, 116, 45, 108, 101, 110, 103, 116, 104], seq![]),
        28 => (seq![99, 111, 110, 116, 101, 110, 116, 45, 108, 111, 99, 97, 116, 105, 111, 110], seq![]),
        29 => (seq![99, 111, 110, 116, 101, 110, 116, 45, 114, 97, 110, 103, 101], seq![]),
        30 => (seq![99, 111, 110, 116, 101, 110, 116, 45, 116, 121, 112, 101], seq![]),
        31 => (seq![99, 111, 111, 107, 105, 101], seq![]),
        32 => (seq![100, 97, 116, 101], seq![]),
        33 => (seq![101, 116, 97, 103], seq![]),
        34 => (seq![101, 120, 112, 101, 99, 116], seq![]),
        35 => (seq![101, 120, 112, 105, 114, 101, 115], seq![]),
        36 => (seq![102, 114, 111, 109], seq![]),
        37 => (seq![104, 111, 115, 116], seq![]),
        38 => (seq![105, 102, 45, 109, 97, 116, 99, 104], seq![]),
        39 => (seq![105, 102, 45, 109, 111, 100, 105, 102, 105, 101, 100, 45, 115, 105, 110, 99, 101], seq![]),
        40 => (seq![105, 102, 45, 110, 111, 110, 101, 45, 109, 97, 116, 99, 104], seq![]),
        41 => (seq![105, 102, 45, 114, 97, 110, 103, 101], seq![]),
        42 => (seq![105, 102, 45, 117, 110, 109, 111, 100, 105, 102, 105, 101, 100, 45, 115, 105, 110, 99, 101], seq![]),
        43 => (seq![108, 97, 115, 116, 45, 109, 111, 100, 105, 102, 105, 101, 100], seq![]),
        44 => (seq![108, 105, 110, 107], seq![]),
        45 => (seq![108, 111, 99, 97, 116, 105, 111, 110], seq![]),
        46 => (seq![109, 97, 120, 45, 102, 111, 114, 119, 97, 114, 100, 115], seq![]),
        47 => (seq![112, 114, 111, 120, 121, 45, 97, 117, 116, 104, 101, 110, 116, 105, 99, 97, 116, 101], seq![]),
        48 => (seq![112, 114, 111, 120, 121, 45, 97, 117, 116, 104, 111, 114, 105, 122, 97, 116, 105, 111, 110], seq![]),
        49 => (seq![114, 97, 110, 103, 101], seq![]),
        50 => (seq![114, 101, 102, 101, 114, 101, 114], seq![]),
        51 => (seq![114, 101, 102, 114, 101, 115, 104], seq![]),
        52 => (seq![114, 101, 116, 114, 121, 45, 97, 102, 116, 101, 114], seq![]),
        53 => (seq![115, 101, 114, 118, 101, 114], seq![]),
        54 => (seq![115, 101, 116, 45, 99, 111, 111, 107, 105, 101], seq![]),
        55 => (seq![115, 116, 114, 105, 99, 116, 45, 116, 114, 97, 110, 115, 112, 111, 114, 116, 45, 115, 101, 99, 117, 114, 105, 116, 121], seq![]),
        56 => (seq![116, 114, 97, 110, 115, 102, 101, 114, 45, 101, 110, 99, 111, 100, 105, 110, 103], seq![]),
        57 => (seq![117, 115, 101, 114, 45, 97, 103, 101, 110, 116], seq![]),
        58 => (seq![118, 97, 114, 121], seq![]),
        59 => (seq![118, 105, 97], seq![]),
        _ => (seq![119, 119, 119, 45, 97, 117, 116, 104, 101, 110, 116, 105, 99, 97, 116, 101], seq![]),
    }
}

pub const STATIC_TABLE_LEN: usize = 61;

/// The static table of RFC 7541 Appendix A as byte strings.
pub open spec fn rfc_static_table() -> Seq<(Seq<u8>, Seq<u8>)> {
    Seq::new(STATIC_TABLE_LEN as nat, |i: int| rfc_static_entry(i as usize))
}

/// One entry of the static table of RFC 7541 Appendix A, zero-based.
pub fn static_table_entry(i: usize) -> (r: (Vec<u8>, Vec<u8>))
    requires
        i < STATIC_TABLE_LEN,
    ensures
        (r.0@, r.1@) == rfc_static_entry(i),
{
    let r: (Vec<u8>, Vec<u8>) = match i {
        0 => (vec![58, 97, 117, 116, 104, 111, 114, 105, 116, 121], vec![]),
        1 => (vec![58, 109, 101, 116, 104, 111, 100], vec![71, 69, 84]),
        2 => (vec![58, 109, 101, 116, 104, 111, 100], vec![80, 79, 83, 84]),
        3 => (vec![58, 112, 97, 116, 104], vec![47]),
        4 => (vec![58, 112, 97, 116, 104], vec![47, 105, 110, 100, 101, 120, 46, 104, 116, 109, 108]),
        5 => (vec![58, 115, 99, 104, 101, 109, 101], vec![104, 116, 116, 112]),
        6 => (vec![58, 115, 99, 104, 101, 109, 101], vec![104, 116, 116, 112, 115]),
        7 => (vec![58, 115, 116, 97, 116, 117, 115], vec![50, 48, 48]),
        8 => (vec![58, 115, 116, 97, 116, 117, 115], vec![50, 48, 52]),
        9 => (vec![58, 115, 116, 97, 116, 117, 115], vec![50, 48, 54]),
        10 => (vec![58, 115, 116, 97, 116, 117, 115], vec![51, 48, 52]),
        11 => (vec![58, 115, 116, 97, 116, 117, 115], vec![52, 48, 48]),
        12 => (vec![58, 115, 116, 97, 116, 117, 115], vec![52, 48, 52]),
        13 => (vec![58, 115, 116, 97, 116, 117, 115], vec![53, 48, 48]),
        14 => (vec![97, 99, 99, 101, 112, 116, 45], vec![]),
        15 => (vec![97, 99, 99, 101, 112, 116, 45, 101, 110, 99, 111, 100, 105, 110, 103], vec![103, 122, 105, 112, 44, 32, 100, 101, 102, 108, 97, 116, 101]),
        16 => (vec![97, 99, 99, 101, 112, 116, 45, 108, 97, 110, 103, 117, 97, 103, 101], vec![]),
        17 => (vec![97, 99, 99, 101, 112, 116, 45, 114, 97, 110, 103, 101, 115], vec![]),
        18 => (vec![97, 99, 99, 101, 112, 116], vec![]),
        19 => (vec![97, 99, 99, 101, 115, 115, 45, 99, 111, 110, 116, 114, 111, 108, 45, 97, 108, 108, 111, 119, 45, 111, 114, 105, 103, 105, 110], vec![]),
        20 => (vec![97, 103, 101], vec![]),
        21 => (vec![97, 108, 108, 111, 119], vec![]),
        22 => (vec![97, 117, 116, 104, 111, 114, 105, 122, 97, 116, 105, 111, 110], vec![]),
        23 => (vec![99, 97, 99, 104, 101, 45, 99, 111, 110, 116, 114, 111, 108], vec![]),
        24 => (vec![99, 111, 110, 116, 101, 110, 116, 45, 100, 105, 115, 112, 111, 115, 105, 116, 105, 111, 110], vec![]),
        25 => (vec![99, 111, 110, 116, 101, 110, 116, 45, 101, 110, 99, 111, 100, 105, 110, 103], vec![]),
        26 => (vec![99, 111, 110, 116, 101, 110, 116, 45, 108, 97, 110, 103, 117, 97, 103, 101], vec![]),
        27 => (vec![99, 111, 110, 116, 101, 110, 116, 45, 108, 101, 110, 103, 116, 104], vec![]),
        28 => (vec![99, 111, 110, 116, 101, 110, 116, 45, 108, 111, 99, 97, 116, 105, 111, 110], vec![]),
        29 => (vec![99, 111, 110, 116, 101, 110, 116, 45, 114, 97, 110, 103, 101], vec![]),
        30 => (vec![99, 111, 110, 116, 101, 110, 116, 45, 116, 121, 112, 101], vec![]),
        31 => (vec![99, 111, 111, 107, 105, 101], vec![]),
        32 => (vec![100, 97, 116, 101], vec![]),
        33 => (vec![101, 116, 97, 103], vec![]),
        34 => (vec![101, 120, 112, 101, 99, 116], vec![]),
        35 => (vec![101, 120, 112, 105, 114, 101, 115], vec![]),
        36 => (vec![102, 114, 111, 109], vec![]),
        37 => (vec![104, 111, 115, 116], vec![]),
        38 => (vec![105, 102, 45, 109, 97, 116, 99, 104], vec![]),
        39 => (vec![105, 102, 45, 109, 111, 100, 105, 102, 105, 101, 100, 45, 115, 105, 110, 99, 101], vec![]),
        40 => (vec![105, 102, 45, 110, 111, 110, 101, 45, 109, 97, 116, 99, 104], vec![]),
        41 => (vec![105, 102, 45, 114, 97, 110, 103, 101], vec![]),
        42 => (vec![105, 102, 45, 117, 110, 109, 111, 100, 105, 102, 105, 101, 100, 45, 115, 105, 110, 99, 101], vec![]),
        43 => (vec![108, 97, 115, 116, 45, 109, 111, 100, 105, 102, 105, 101, 100], vec![]),
        44 => (vec![108, 105, 110, 107], vec![]),
        45 => (vec![108, 111, 99, 97, 116, 105, 111, 110], vec![]),
        46 => (vec![109, 97, 120, 45, 102, 111, 114, 119, 97, 114, 100, 115], vec![]),
        47 => (vec![112, 114, 111, 120, 121, 45, 97, 117, 116, 104, 101, 110, 116, 105, 99, 97, 116, 101], vec![]),
        48 => (vec![112, 114, 111, 120, 121, 45, 97, 117, 116, 104, 111, 114, 105, 122, 97, 116, 105, 111, 110], vec![]),
        49 => (vec![114, 97, 110, 103, 101], vec![]),
        50 => (vec![114, 101, 102, 101, 114, 101, 114], vec![]),
        51 => (vec![114, 101, 102, 114, 101, 115, 104], vec![]),
        52 => (vec![114, 101, 116, 114, 121, 45, 97, 102, 116, 101, 114], vec![]),
        53 => (vec![115, 101, 114, 118, 101, 114], vec![]),
        54 => (vec![115, 101, 116, 45, 99, 111, 111, 107, 105, 101], vec![]),
        55 => (vec![115, 116, 114, 105, 99, 116, 45, 116, 114, 97, 110, 115, 112, 111, 114, 116, 45, 115, 101, 99, 117, 114, 105, 116, 121], vec![]),
        56 => (vec![116, 114, 97, 110, 115, 102, 101, 114, 45, 101, 110, 99, 111, 100, 105, 110, 103], vec![]),
        57 => (vec![117, 115, 101, 114, 45, 97, 103, 101, 110, 116], vec![]),
        58 => (vec![118, 97, 114, 121], vec![]),
        59 => (vec![118, 105, 97], vec![]),
        _ => (vec![119, 119, 119, 45, 97, 117, 116, 104, 101, 110, 116, 105, 99, 97, 116, 101], vec![]),
    };
    assert((r.0@, r.1@) =~~= rfc_static_entry(i));
    r
}

} // verus!
