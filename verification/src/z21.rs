//! Z21 LAN UDP record detector.

use vstd::prelude::*;

verus! {

/// One Z21 LAN record (`DataLen | Header | Data`).
#[derive(Debug, Clone, PartialEq, Eq)]
pub struct Z21Record {
    /// 16-bit header (little-endian on wire).
    pub header: u16,
    /// X-BUS sub-header when `header == 0x0040`, else 0.
    pub xheader: u8,
    /// Full DataLen field (includes 4-byte header).
    pub data_len: u16,
    /// Data bytes (DataLen - 4).
    pub data: Vec<u8>,
}

/// A record as plain values.
pub struct Z21View {
    pub header: u16,
    pub xheader: u8,
    pub data_len: u16,
    pub data: Seq<u8>,
}

impl View for Z21Record {
    type V = Z21View;

    open spec fn view(&self) -> Z21View {
        Z21View { header: self.header, xheader: self.xheader, data_len: self.data_len, data: self.data@ }
    }
}

/// Little-endian 16-bit value of `p[i], p[i + 1]`.
pub open spec fn le16(p: Seq<u8>, i: int) -> u16 {
    (p[i] + 256 * p[i + 1]) as u16
}

/// The records found from offset `off` on: each is `DataLen` (at least 4)
/// bytes long, and the scan stops at the first record that is too short or
/// runs past the end of the payload.
pub open spec fn z21_records(p: Seq<u8>, off: int) -> Seq<Z21View>
    decreases p.len() - off,
{
    if off < 0 || off + 4 > p.len() {
        seq![]
    } else {
        let data_len = le16(p, off);
        let header = le16(p, off + 2);
        if data_len < 4 || off + data_len > p.len() {
            seq![]
        } else {
            let data = p.subrange(off + 4, off + data_len);
            let xheader: u8 = if header == 0x0040 && data.len() > 0 {
                data[0]
            } else {
                0
            };
            seq![Z21View { header, xheader, data_len, data }] + z21_records(p, off + data_len)
        }
    }
}

/// The bytes `p[a..b]` in a fresh vector.
pub fn slice_to_vec(p: &[u8], a: usize, b: usize) -> (r: Vec<u8>)
    requires
        a <= b <= p@.len(),
    ensures
        r@ == p@.subrange(a as int, b as int),
{
    let mut r: Vec<u8> = Vec::new();
    let mut i: usize = a;
    while i < b
        invariant
            a <= i <= b <= p@.len(),
            r@ == p@.subrange(a as int, i as int),
        decreases b - i,
    {
        r.push(p[i]);
        i = i + 1;
    }
    r
}

/// Split a UDP payload into Z21 records. Stops on truncated/invalid data.
pub fn detect_z21_records(payload: &[u8]) -> (r: Vec<Z21Record>)
    ensures
        r@.map_values(|x: Z21Record| x@) == z21_records(payload@, 0),
{
    let mut out: Vec<Z21Record> = Vec::new();
    let mut off: usize = 0;
    let n = payload.len();
    while n >= 4 && off <= n - 4
        invariant
            n == payload@.len(),
            off <= n,
            out@.map_values(|x: Z21Record| x@) + z21_records(payload@, off as int) == z21_records(payload@, 0),
        ensures
            out@.map_values(|x: Z21Record| x@) == z21_records(payload@, 0),
        decreases n - off,
    {
        let data_len: u16 = payload[off] as u16 + 256 * (payload[off + 1] as u16);
        let header: u16 = payload[off + 2] as u16 + 256 * (payload[off + 3] as u16);
        let total = data_len as usize;
        if data_len < 4 || total > n - off {
            proof {
                assert(data_len == le16(payload@, off as int));
                assert(z21_records(payload@, off as int) =~= seq![]);
                assert(out@.map_values(|x: Z21Record| x@) + seq![] =~= out@.map_values(|x: Z21Record| x@));
            }
            break;
        }
        let data = slice_to_vec(payload, off + 4, off + total);
        let xheader: u8 = if header == 0x0040 && data.len() > 0 {
            data[0]
        } else {
            0
        };
        let rec = Z21Record { header, xheader, data_len, data };
        let ghost o0 = out@.map_values(|x: Z21Record| x@);
        out.push(rec);
        proof {
            assert(out@.map_values(|x: Z21Record| x@) =~= o0.push(rec@));
            let rest = z21_records(payload@, (off + total) as int);
            assert(z21_records(payload@, off as int) == seq![rec@] + rest);
            assert(o0.push(rec@) + rest =~= o0 + (seq![rec@] + rest));
        }
        off = off + total;
    }
    out
}

/// Each record found holds the bytes its `DataLen` covers after the 4-byte
/// record header, and reports an X-Bus sub-header only for the X-Bus
/// header `0x0040`: there it is the first data byte (0 with no data), for
/// every other header it is 0.
pub proof fn lemma_z21_xheader(p: Seq<u8>, off: int)
    ensures
        forall|k: int|
            #![trigger z21_records(p, off)[k]]
            0 <= k < z21_records(p, off).len() ==> {
                let r = z21_records(p, off)[k];
                &&& r.data.len() + 4 == r.data_len
                &&& r.header != 0x0040 ==> r.xheader == 0
                &&& (r.header == 0x0040 && r.data.len() > 0) ==> r.xheader == r.data[0]
                &&& (r.header == 0x0040 && r.data.len() == 0) ==> r.xheader == 0
            },
    decreases p.len() - off,
{
    if !(off < 0 || off + 4 > p.len()) {
        let data_len = le16(p, off);
        if !(data_len < 4 || off + data_len > p.len()) {
            lemma_z21_xheader(p, off + data_len);
            let all = z21_records(p, off);
            let rest = z21_records(p, off + data_len);
            assert forall|k: int| 1 <= k < all.len() implies #[trigger] all[k] == rest[k - 1] by {}
        }
    }
}

} // verus!
