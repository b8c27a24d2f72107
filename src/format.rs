//! The byte layout of a store file, and the forward scan that finds a record.
//!
//! A file is an eight-byte header (a six-byte signature and a big-endian `u16` version)
//! followed by records: a type byte (`0`), a big-endian `u16` key length, the key's
//! UTF-8 bytes, a big-endian `u32` value length and the value's UTF-8 bytes.

use vstd::prelude::*;
use vstd::utf8::{decode_utf8, encode_utf8, valid_utf8};

verus! {

pub const HEADER_LEN: usize = 8;

pub const CURRENT_VERSION: u16 = 0;

pub const DATA_ENTRY_TYPE: u8 = 0;

pub open spec fn magic() -> Seq<u8> {
    seq![0u8, 104u8, 105u8, 107u8, 105u8, 118u8]
}

pub open spec fn be16(n: int) -> Seq<u8> {
    seq![(n / 256) as u8, (n % 256) as u8]
}

pub open spec fn be32(n: int) -> Seq<u8> {
    seq![(n / 16777216) as u8, ((n / 65536) % 256) as u8, ((n / 256) % 256) as u8, (n % 256) as u8]
}

pub open spec fn read_be16(b: Seq<u8>, at: int) -> int {
    b[at] as int * 256 + b[at + 1] as int
}

pub open spec fn read_be32(b: Seq<u8>, at: int) -> int {
    ((b[at] as int * 256 + b[at + 1] as int) * 256 + b[at + 2] as int) * 256 + b[at + 3] as int
}

pub open spec fn header() -> Seq<u8> {
    magic() + be16(CURRENT_VERSION as int)
}

/// The bytes of one record.
pub open spec fn entry_bytes(key: Seq<char>, value: Seq<char>) -> Seq<u8> {
    seq![DATA_ENTRY_TYPE] + be16(encode_utf8(key).len() as int) + encode_utf8(key) + be32(
        encode_utf8(value).len() as int,
    ) + encode_utf8(value)
}

/// A record can be written when its key's bytes fit a `u16` length and its value's a `u32`.
pub open spec fn encodable(key: Seq<char>, value: Seq<char>) -> bool {
    encode_utf8(key).len() <= 0xffff && encode_utf8(value).len() <= 0xffff_ffff
}

/// The outcome of scanning for a key.
pub enum Scan {
    /// The first record with the key: its start, its length in bytes, and its value's bytes.
    Found(int, int, Seq<u8>),
    Absent,
    /// A record before any match is cut short, has an unknown type or a key that is not UTF-8.
    Corrupt,
}

/// Scans the records from `pos` on for the first whose key is `key`.
pub open spec fn scan(data: Seq<u8>, pos: int, key: Seq<char>) -> Scan
    decreases data.len() - pos,
{
    if pos < 0 || pos >= data.len() {
        Scan::Absent
    } else if data[pos] != DATA_ENTRY_TYPE || pos + 3 > data.len() {
        Scan::Corrupt
    } else {
        let ks = pos + 3;
        let ke = ks + read_be16(data, pos + 1);
        if ke + 4 > data.len() {
            Scan::Corrupt
        } else {
            let end = ke + 4 + read_be32(data, ke);
            let kb = data.subrange(ks, ke);
            if end > data.len() || !valid_utf8(kb) {
                Scan::Corrupt
            } else if decode_utf8(kb) == key {
                Scan::Found(pos, end - pos, data.subrange(ke + 4, end))
            } else {
                scan(data, end, key)
            }
        }
    }
}

/// The scan of a whole file: the records start after the header.
pub open spec fn lookup(data: Seq<u8>, key: Seq<char>) -> Scan {
    scan(data, HEADER_LEN as int, key)
}

pub proof fn lemma_be16(n: int)
    requires
        0 <= n <= 0xffff,
    ensures
        read_be16(be16(n), 0) == n,
{
    assert(0 <= n / 256 <= 255 && (n / 256) * 256 + n % 256 == n && 0 <= n % 256 < 256)
        by (nonlinear_arith)
        requires
            0 <= n <= 0xffff,
    ;
}

pub proof fn lemma_be32(n: int)
    requires
        0 <= n <= 0xffff_ffff,
    ensures
        read_be32(be32(n), 0) == n,
{
    let q1 = n / 256;
    let q2 = q1 / 256;
    assert(q1 * 256 + n % 256 == n && 0 <= n % 256 < 256 && 0 <= q1) by (nonlinear_arith)
        requires
            0 <= n,
            q1 == n / 256,
    ;
    assert(q2 * 256 + q1 % 256 == q1 && 0 <= q1 % 256 < 256 && 0 <= q2) by (nonlinear_arith)
        requires
            0 <= q1,
            q2 == q1 / 256,
    ;
    assert(q2 / 256 * 256 + q2 % 256 == q2 && 0 <= q2 % 256 < 256 && q2 / 256 <= 255)
        by (nonlinear_arith)
        requires
            0 <= q2,
            q2 * 65536 <= n,
            n <= 0xffff_ffff,
    ;
    assert(q2 * 65536 <= n) by (nonlinear_arith)
        requires
            q1 * 256 <= n,
            q2 * 256 <= q1,
    ;
    vstd::arithmetic::div_mod::lemma_div_denominator(n, 256, 256);
    vstd::arithmetic::div_mod::lemma_div_denominator(n, 65536, 256);
    vstd::arithmetic::div_mod::lemma_div_denominator(n, 256, 65536);
    assert(n / 65536 == q2);
    assert(n / 16777216 == q2 / 256);
    assert(((n / 256) % 256) == q1 % 256);
    assert(((n / 65536) % 256) == q2 % 256);
}

/// Where a scan finds a record, it lies within the bytes, at or after the start.
pub proof fn lemma_found_bounds(data: Seq<u8>, pos: int, key: Seq<char>)
    requires
        scan(data, pos, key) is Found,
    ensures
        scan(data, pos, key) matches Scan::Found(o, l, v) && pos <= o && 0 <= l && o + l
            <= data.len(),
    decreases data.len() - pos,
{
    if 0 <= pos < data.len() && data[pos] == DATA_ENTRY_TYPE && pos + 3 <= data.len() {
        let ke = pos + 3 + read_be16(data, pos + 1);
        if ke + 4 <= data.len() {
            let end = ke + 4 + read_be32(data, ke);
            if end <= data.len() && valid_utf8(data.subrange(pos + 3, ke)) && decode_utf8(
                data.subrange(pos + 3, ke),
            ) != key {
                lemma_found_bounds(data, end, key);
            }
        }
    }
}

/// A scan that ends at `o` (a match there, or the end of the bytes) reads only the bytes
/// before `o` on its way; bytes that agree with them are scanned the same way up to `o`.
pub proof fn lemma_scan_prefix(d: Seq<u8>, d2: Seq<u8>, pos: int, o: int, key: Seq<char>)
    requires
        0 <= pos <= o <= d.len(),
        o <= d2.len(),
        d.take(o) == d2.take(o),
        (scan(d, pos, key) matches Scan::Found(f, _, _) && f == o) || (scan(d, pos, key) is Absent
            && o == d.len()),
    ensures
        scan(d2, pos, key) == scan(d2, o, key),
    decreases d.len() - pos,
{
    if pos < o {
        assert(d[pos] == d.take(o)[pos]);
        assert(d2[pos] == d2.take(o)[pos]);
        let ks = pos + 3;
        let ke = ks + read_be16(d, pos + 1);
        let end = ke + 4 + read_be32(d, ke);
        if scan(d, end, key) is Found {
            lemma_found_bounds(d, end, key);
        }
        if scan(d, pos, key) is Found {
            lemma_found_bounds(d, pos, key);
        }
        assert(end <= o);
        assert forall|i: int| pos <= i < end implies d2[i] == d[i] by {
            assert(d[i] == d.take(o)[i]);
            assert(d2[i] == d2.take(o)[i]);
        }
        assert(d2.subrange(ks, ke) =~= d.subrange(ks, ke));
        lemma_scan_prefix(d, d2, end, o, key);
    }
}

/// A scan that finds a record ending within bytes that agree with `d`'s finds the same.
pub proof fn lemma_scan_prefix_found(d: Seq<u8>, d2: Seq<u8>, pos: int, m: int, key: Seq<char>)
    requires
        0 <= pos,
        m <= d.len(),
        m <= d2.len(),
        d.take(m) == d2.take(m),
        scan(d, pos, key) matches Scan::Found(f, l, _) && f + l <= m,
    ensures
        scan(d2, pos, key) == scan(d, pos, key),
    decreases d.len() - pos,
{
    lemma_found_bounds(d, pos, key);
    let ks = pos + 3;
    let ke = ks + read_be16(d, pos + 1);
    let end = ke + 4 + read_be32(d, ke);
    if scan(d, end, key) is Found {
        lemma_found_bounds(d, end, key);
    }
    assert(end <= m);
    assert forall|i: int| pos <= i < end implies d2[i] == d[i] by {
        assert(d[i] == d.take(m)[i]);
        assert(d2[i] == d2.take(m)[i]);
    }
    assert(d2.subrange(ks, ke) =~= d.subrange(ks, ke));
    assert(d2.subrange(ke + 4, end) =~= d.subrange(ke + 4, end));
    if !(scan(d, pos, key) matches Scan::Found(f, _, _) && f == pos) {
        lemma_scan_prefix_found(d, d2, end, m, key);
    }
}

/// Where a scan for one key runs to the end of the bytes, a scan for any other key meets no
/// damaged record.
pub proof fn lemma_absent_other_key(d: Seq<u8>, pos: int, k: Seq<char>, k2: Seq<char>)
    requires
        0 <= pos <= d.len(),
        scan(d, pos, k) is Absent,
    ensures
        !(scan(d, pos, k2) is Corrupt),
    decreases d.len() - pos,
{
    if pos < d.len() {
        let ke = pos + 3 + read_be16(d, pos + 1);
        let end = ke + 4 + read_be32(d, ke);
        if decode_utf8(d.subrange(pos + 3, ke)) != k2 {
            lemma_absent_other_key(d, end, k, k2);
        }
    }
}

/// A scan that reaches a record for `k` with value `v`: it is found there when its key is
/// sought, and passed over otherwise.
#[verifier::rlimit(50)]
pub proof fn lemma_scan_entry(a: Seq<u8>, k: Seq<char>, v: Seq<char>, b: Seq<u8>, key: Seq<char>)
    requires
        encodable(k, v),
    ensures
        k == key ==> scan(a + entry_bytes(k, v) + b, a.len() as int, key) == Scan::Found(
            a.len() as int,
            entry_bytes(k, v).len() as int,
            encode_utf8(v),
        ),
        k != key ==> scan(a + entry_bytes(k, v) + b, a.len() as int, key) == scan(
            a + entry_bytes(k, v) + b,
            (a.len() + entry_bytes(k, v).len()) as int,
            key,
        ),
{
    let kb = encode_utf8(k);
    let vb = encode_utf8(v);
    let kl = kb.len() as int;
    let vl = vb.len() as int;
    let s1 = seq![DATA_ENTRY_TYPE] + be16(kl);
    let s2 = s1 + kb;
    let s3 = s2 + be32(vl);
    let e = s3 + vb;
    assert(e == entry_bytes(k, v));
    let d = a + e + b;
    let p = a.len() as int;
    assert forall|i: int| 0 <= i < e.len() implies d[p + i] == e[i] by {
        assert(d[p + i] == (a + e)[p + i]);
    }
    assert(e[0] == 0 && e[1] == be16(kl)[0] && e[2] == be16(kl)[1]) by {
        assert(e[0] == s3[0] && s3[0] == s2[0] && s2[0] == s1[0]);
        assert(e[1] == s3[1] && s3[1] == s2[1] && s2[1] == s1[1]);
        assert(e[2] == s3[2] && s3[2] == s2[2] && s2[2] == s1[2]);
    }
    lemma_be16(kl);
    assert(read_be16(d, p + 1) == kl) by {
        assert(d[p + 1] == e[1] && d[p + 2] == e[2]);
    }
    let ke = p + 3 + kl;
    assert forall|j: int| 0 <= j < 4 implies #[trigger] d[ke + j] == be32(vl)[j] by {
        assert(d[ke + j] == e[3 + kl + j]);
        assert(e[3 + kl + j] == s3[3 + kl + j]);
    }
    lemma_be32(vl);
    assert(read_be32(d, ke) == vl) by {
        assert(d[ke + 0] == be32(vl)[0]);
        assert(d[ke + 1] == be32(vl)[1]);
        assert(d[ke + 2] == be32(vl)[2]);
        assert(d[ke + 3] == be32(vl)[3]);
    }
    assert(d.subrange(p + 3, ke) =~= kb) by {
        assert forall|i: int| 0 <= i < kl implies d.subrange(p + 3, ke)[i] == kb[i] by {
            assert(d[p + 3 + i] == e[3 + i]);
            assert(e[3 + i] == s3[3 + i] && s3[3 + i] == s2[3 + i]);
        }
    }
    assert(d.subrange(ke + 4, ke + 4 + vl) =~= vb) by {
        assert forall|i: int| 0 <= i < vl implies d.subrange(ke + 4, ke + 4 + vl)[i] == vb[i] by {
            assert(d[ke + 4 + i] == e[7 + kl + i]);
        }
    }
    assert(e.len() == 7 + kl + vl);
    assert(d[p] == 0) by {
        assert(d[p + 0] == e[0]);
    }
    vstd::utf8::encode_utf8_valid_utf8(k);
    vstd::utf8::encode_utf8_decode_utf8(k);
}

/// What the scan found, in positions of the file.
pub enum Lookup {
    Found { offset: usize, length: usize, value_start: usize },
    Absent,
    Corrupt,
}

impl Lookup {
    pub open spec fn matches(&self, data: Seq<u8>, s: Scan) -> bool {
        match (*self, s) {
            (Lookup::Found { offset, length, value_start }, Scan::Found(o, l, v)) => offset == o
                && length == l && value_start <= offset + length && v == data.subrange(
                value_start as int,
                offset + length,
            ),
            (Lookup::Absent, Scan::Absent) => true,
            (Lookup::Corrupt, Scan::Corrupt) => true,
            _ => false,
        }
    }
}

/// Relies on String::from_utf8: it succeeds exactly on valid UTF-8, and decodes it.
#[verifier::external_body]
pub(crate) fn decode_text(b: Vec<u8>) -> (r: Option<String>)
    ensures
        r is Some <==> valid_utf8(b@),
        r matches Some(s) ==> s@ == decode_utf8(b@),
{
    String::from_utf8(b).ok()
}

/// A copy of `data[start..end]`.
pub fn copy_range(data: &Vec<u8>, start: usize, end: usize) -> (r: Vec<u8>)
    requires
        start <= end <= data.len(),
    ensures
        r@ == data@.subrange(start as int, end as int),
{
    let mut out: Vec<u8> = Vec::new();
    let mut j = start;
    while j < end
        invariant
            start <= j <= end <= data.len(),
            out@ == data@.subrange(start as int, j as int),
        decreases end - j,
    {
        out.push(data[j]);
        proof {
            assert(out@ =~= data@.subrange(start as int, j + 1));
        }
        j += 1;
    }
    out
}

/// Appends `src` to `dst`.
pub fn append_bytes(dst: &mut Vec<u8>, src: &[u8])
    ensures
        final(dst)@ == old(dst)@ + src@,
{
    let mut j: usize = 0;
    while j < src.len()
        invariant
            j <= src.len(),
            dst@ == old(dst)@ + src@.take(j as int),
        decreases src.len() - j,
    {
        dst.push(src[j]);
        proof {
            assert(dst@ =~= old(dst)@ + src@.take(j + 1));
        }
        j += 1;
    }
    proof {
        assert(src@.take(src@.len() as int) =~= src@);
    }
}

pub fn read_u16(data: &Vec<u8>, at: usize) -> (r: usize)
    requires
        at + 2 <= data.len(),
    ensures
        r == read_be16(data@, at as int),
        r <= 0xffff,
{
    let a = data[at] as usize;
    let b = data[at + 1] as usize;
    assert(a * 256 + b <= 0xffff) by (nonlinear_arith)
        requires
            a <= 255,
            b <= 255,
    ;
    a * 256 + b
}

pub fn read_u32(data: &Vec<u8>, at: usize) -> (r: u64)
    requires
        at + 4 <= data.len(),
    ensures
        r == read_be32(data@, at as int),
        r <= 0xffff_ffff,
{
    let a = data[at] as u64;
    let b = data[at + 1] as u64;
    let c = data[at + 2] as u64;
    let d = data[at + 3] as u64;
    assert(((a * 256 + b) * 256 + c) * 256 + d <= 0xffff_ffff) by (nonlinear_arith)
        requires
            a <= 255,
            b <= 255,
            c <= 255,
            d <= 255,
    ;
    ((a * 256 + b) * 256 + c) * 256 + d
}

pub fn push_u16(out: &mut Vec<u8>, n: u16)
    ensures
        final(out)@ == old(out)@ + be16(n as int),
{
    out.push((n / 256) as u8);
    out.push((n % 256) as u8);
    proof {
        assert(final(out)@ =~= old(out)@ + be16(n as int));
    }
}

pub fn push_u32(out: &mut Vec<u8>, n: u32)
    ensures
        final(out)@ == old(out)@ + be32(n as int),
{
    out.push((n / 16777216) as u8);
    out.push(((n / 65536) % 256) as u8);
    out.push(((n / 256) % 256) as u8);
    out.push((n % 256) as u8);
    proof {
        assert(final(out)@ =~= old(out)@ + be32(n as int));
    }
}

/// The file header.
pub fn header_bytes() -> (r: Vec<u8>)
    ensures
        r@ == header(),
{
    let mut out = vec![0u8, 104u8, 105u8, 107u8, 105u8, 118u8];
    push_u16(&mut out, CURRENT_VERSION);
    proof {
        assert(out@ =~= header());
    }
    out
}

/// Scans `data` from `pos` for the first record whose key is `key`.
pub fn find_entry(data: &Vec<u8>, pos: usize, key: &String) -> (r: Lookup)
    ensures
        r.matches(data@, scan(data@, pos as int, key@)),
        r matches Lookup::Found { offset, length, value_start } ==> pos <= offset && offset + length
            <= data.len(),
{
    let mut p = pos;
    while p < data.len()
        invariant
            pos <= p,
            scan(data@, pos as int, key@) == scan(data@, p as int, key@),
        decreases data.len() - p,
    {
        if data[p] != DATA_ENTRY_TYPE || data.len() - p < 3 {
            return Lookup::Corrupt;
        }
        let ks = p + 3;
        let kl = read_u16(data, p + 1);
        if data.len() - ks < kl || data.len() - ks - kl < 4 {
            return Lookup::Corrupt;
        }
        let ke = ks + kl;
        let vl = read_u32(data, ke);
        if ((data.len() - ke - 4) as u64) < vl {
            return Lookup::Corrupt;
        }
        let end = ke + 4 + vl as usize;
        let kb = copy_range(data, ks, ke);
        match decode_text(kb) {
            None => {
                return Lookup::Corrupt;
            },
            Some(k) => {
                if k == *key {
                    return Lookup::Found { offset: p, length: end - p, value_start: ke + 4 };
                }
            },
        }
        p = end;
    }
    Lookup::Absent
}

} // verus!
