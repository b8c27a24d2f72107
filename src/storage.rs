//! The store's file held as bytes: record lookup, append, removal and replacement.
//!
//! Each change also comes back as a `FileEdit`, so that whoever owns the file on disk can
//! bring it to the same bytes: cut it at one position, then write bytes at its end.

use vstd::prelude::*;
use vstd::utf8::{decode_utf8, encode_utf8, valid_utf8};
use crate::format::{
    append_bytes, copy_range, decode_text, encodable, entry_bytes, find_entry, header,
    header_bytes, lemma_absent_other_key, lemma_found_bounds, lemma_scan_entry, lemma_scan_prefix,
    lemma_scan_prefix_found, lookup, magic, push_u16,
    push_u32, Lookup, Scan, DATA_ENTRY_TYPE, HEADER_LEN,
};

verus! {

#[derive(Debug, Clone, Copy, PartialEq, Eq, Structural)]
pub enum StorageError {
    /// The file does not read as records.
    Corrupt,
    /// A key's UTF-8 bytes do not fit a `u16` length.
    KeyTooLong,
    /// A value's UTF-8 bytes do not fit a `u32` length.
    ValueTooLong,
}

/// A change to the file: cut it to `truncate_to` bytes, then append `append`.
pub struct FileEdit {
    pub truncate_to: usize,
    pub append: Vec<u8>,
}

/// The bytes of a file after an edit.
pub open spec fn applied(data: Seq<u8>, e: FileEdit) -> Seq<u8> {
    data.take(e.truncate_to as int) + e.append@
}

/// A file whose header is whole and begins with the signature.
pub open spec fn valid_header(data: Seq<u8>) -> bool {
    data.len() >= HEADER_LEN && data.take(6) == magic()
}

/// The error for a record that cannot be written.
pub open spec fn encode_error(key: Seq<char>) -> StorageError {
    if encode_utf8(key).len() > 0xffff {
        StorageError::KeyTooLong
    } else {
        StorageError::ValueTooLong
    }
}

/// The value stored under `key`: that of the first record with the key.
pub open spec fn stored_value(data: Seq<u8>, key: Seq<char>) -> Result<Option<Seq<char>>, StorageError> {
    match lookup(data, key) {
        Scan::Found(_, _, vb) => if valid_utf8(vb) {
            Ok(Some(decode_utf8(vb)))
        } else {
            Err(StorageError::Corrupt)
        },
        Scan::Absent => Ok(None),
        Scan::Corrupt => Err(StorageError::Corrupt),
    }
}

/// The file without the first record of `key`; the file itself when there is none.
pub open spec fn deleted(data: Seq<u8>, key: Seq<char>) -> Seq<u8> {
    match lookup(data, key) {
        Scan::Found(o, l, _) => data.take(o) + data.skip(o + l),
        _ => data,
    }
}

/// The file with the first record of `key` replaced, where it stood, by one holding `value`.
pub open spec fn updated(data: Seq<u8>, key: Seq<char>, value: Seq<char>) -> Seq<u8> {
    match lookup(data, key) {
        Scan::Found(o, l, _) => data.take(o) + entry_bytes(key, value) + data.skip(o + l),
        _ => data,
    }
}

pub open spec fn value_view(r: &Result<Option<String>, StorageError>) -> Result<Option<Seq<char>>, StorageError> {
    match r {
        Ok(Some(s)) => Ok(Some(s@)),
        Ok(None) => Ok(None),
        Err(e) => Err(*e),
    }
}

/// Writing a record for a key that the file does not hold, then reading the key, gives the
/// value written.
pub proof fn lemma_write_then_get(data: Seq<u8>, key: Seq<char>, value: Seq<char>)
    requires
        valid_header(data),
        lookup(data, key) is Absent,
        encodable(key, value),
    ensures
        stored_value(data + entry_bytes(key, value), key) == Ok::<Option<Seq<char>>, StorageError>(
            Some(value),
        ),
{
    let d2 = data + entry_bytes(key, value);
    assert(data.take(data.len() as int) =~= d2.take(data.len() as int));
    lemma_scan_prefix(data, d2, HEADER_LEN as int, data.len() as int, key);
    assert(d2 =~= data + entry_bytes(key, value) + Seq::empty());
    lemma_scan_entry(data, key, value, Seq::empty(), key);
    vstd::utf8::encode_utf8_valid_utf8(value);
    vstd::utf8::encode_utf8_decode_utf8(value);
}

/// Updating a key that the file holds, then reading it, gives the new value.
pub proof fn lemma_update_then_get(data: Seq<u8>, key: Seq<char>, value: Seq<char>)
    requires
        valid_header(data),
        lookup(data, key) is Found,
        encodable(key, value),
    ensures
        stored_value(updated(data, key, value), key) == Ok::<Option<Seq<char>>, StorageError>(
            Some(value),
        ),
{
    lemma_found_bounds(data, HEADER_LEN as int, key);
    if let Scan::Found(o, l, _) = lookup(data, key) {
        let a = data.take(o);
        let rest = data.skip(o + l);
        let d2 = updated(data, key, value);
        assert(d2 == a + entry_bytes(key, value) + rest);
        assert(d2.take(o) =~= data.take(o));
        lemma_scan_prefix(data, d2, HEADER_LEN as int, o, key);
        lemma_scan_entry(a, key, value, rest, key);
        vstd::utf8::encode_utf8_valid_utf8(value);
        vstd::utf8::encode_utf8_decode_utf8(value);
    }
}

/// Writing a key that the file does not hold, updating it, then reading it gives the
/// updated value.
pub proof fn lemma_write_update_get(data: Seq<u8>, key: Seq<char>, v1: Seq<char>, v2: Seq<char>)
    requires
        valid_header(data),
        lookup(data, key) is Absent,
        encodable(key, v1),
        encodable(key, v2),
    ensures
        stored_value(updated(data + entry_bytes(key, v1), key, v2), key) == Ok::<
            Option<Seq<char>>,
            StorageError,
        >(Some(v2)),
{
    let d1 = data + entry_bytes(key, v1);
    lemma_write_then_get(data, key, v1);
    assert(d1.take(6) =~= data.take(6));
    lemma_update_then_get(d1, key, v2);
}

/// Appending a record for `k` leaves what any other key reads as it was, where `k` was not
/// held before.
pub proof fn lemma_append_keeps_others(
    data: Seq<u8>,
    k: Seq<char>,
    v: Seq<char>,
    k2: Seq<char>,
)
    requires
        valid_header(data),
        lookup(data, k) is Absent,
        encodable(k, v),
        k2 != k,
    ensures
        stored_value(data + entry_bytes(k, v), k2) == stored_value(data, k2),
{
    let n = data.len() as int;
    let d2 = data + entry_bytes(k, v);
    assert(data.take(n) =~= d2.take(n));
    lemma_absent_other_key(data, HEADER_LEN as int, k, k2);
    if lookup(data, k2) is Found {
        lemma_found_bounds(data, HEADER_LEN as int, k2);
        lemma_scan_prefix_found(data, d2, HEADER_LEN as int, n, k2);
    } else {
        lemma_scan_prefix(data, d2, HEADER_LEN as int, n, k2);
        assert(d2 =~= data + entry_bytes(k, v) + Seq::empty());
        lemma_scan_entry(data, k, v, Seq::empty(), k2);
    }
}

/// Writing a key that the file does not hold and then updating it changes what no other key
/// reads.
pub proof fn lemma_write_update_keeps_others(
    data: Seq<u8>,
    key: Seq<char>,
    v1: Seq<char>,
    v2: Seq<char>,
    other: Seq<char>,
)
    requires
        valid_header(data),
        lookup(data, key) is Absent,
        encodable(key, v1),
        encodable(key, v2),
        other != key,
    ensures
        stored_value(updated(data + entry_bytes(key, v1), key, v2), other) == stored_value(
            data,
            other,
        ),
{
    let n = data.len() as int;
    let d1 = data + entry_bytes(key, v1);
    assert(data.take(n) =~= d1.take(n));
    lemma_scan_prefix(data, d1, HEADER_LEN as int, n, key);
    assert(d1 =~= data + entry_bytes(key, v1) + Seq::empty());
    lemma_scan_entry(data, key, v1, Seq::empty(), key);
    assert(updated(d1, key, v2) =~= data + entry_bytes(key, v2));
    lemma_append_keeps_others(data, key, v2, other);
}

/// Deleting a key that the file does not hold leaves the file as it was.
pub proof fn lemma_delete_absent(data: Seq<u8>, key: Seq<char>)
    requires
        lookup(data, key) is Absent,
    ensures
        deleted(data, key) == data,
{
}

/// Writing records for keys `ka`, `kb`, `kc` (with `ka` other than `kb`, and `kb` not held
/// before), then deleting `kb`, leaves the records of `ka` and `kc` in their order, each
/// with its value, after the bytes that were there before.
pub proof fn lemma_delete_keeps_order(
    data: Seq<u8>,
    ka: Seq<char>,
    va: Seq<char>,
    kb: Seq<char>,
    vb: Seq<char>,
    kc: Seq<char>,
    vc: Seq<char>,
)
    requires
        valid_header(data),
        lookup(data, kb) is Absent,
        ka != kb,
        encodable(ka, va),
        encodable(kb, vb),
        encodable(kc, vc),
    ensures
        deleted(data + entry_bytes(ka, va) + entry_bytes(kb, vb) + entry_bytes(kc, vc), kb) == data
            + entry_bytes(ka, va) + entry_bytes(kc, vc),
{
    let ea = entry_bytes(ka, va);
    let eb = entry_bytes(kb, vb);
    let ec = entry_bytes(kc, vc);
    let d = data + ea + eb + ec;
    assert(data.take(data.len() as int) =~= d.take(data.len() as int));
    lemma_scan_prefix(data, d, HEADER_LEN as int, data.len() as int, kb);
    assert(d =~= data + ea + (eb + ec));
    lemma_scan_entry(data, ka, va, eb + ec, kb);
    assert(d =~= (data + ea) + eb + ec);
    lemma_scan_entry(data + ea, kb, vb, ec, kb);
    let o = (data.len() + ea.len()) as int;
    assert(d.take(o) =~= data + ea);
    assert(d.skip(o + eb.len()) =~= ec);
    assert(deleted(d, kb) =~= data + ea + ec);
}

/// The bytes of one record.
fn encode_entry(key: &String, value: &String) -> (r: Result<Vec<u8>, StorageError>)
    ensures
        r is Ok <==> encodable(key@, value@),
        r matches Ok(b) ==> b@ == entry_bytes(key@, value@),
        r matches Err(e) ==> e == encode_error(key@),
{
    let kb = key.as_str().as_bytes();
    let vb = value.as_str().as_bytes();
    if kb.len() > 0xffff {
        return Err(StorageError::KeyTooLong);
    }
    if vb.len() as u64 > 0xffff_ffff {
        return Err(StorageError::ValueTooLong);
    }
    let mut out: Vec<u8> = Vec::new();
    out.push(DATA_ENTRY_TYPE);
    push_u16(&mut out, kb.len() as u16);
    append_bytes(&mut out, kb);
    push_u32(&mut out, vb.len() as u32);
    append_bytes(&mut out, vb);
    proof {
        assert(out@ =~= entry_bytes(key@, value@));
    }
    Ok(out)
}

pub struct Storage {
    data: Vec<u8>,
}

impl View for Storage {
    type V = Seq<u8>;

    closed spec fn view(&self) -> Seq<u8> {
        self.data@
    }
}

impl Storage {
    pub open spec fn wf(&self) -> bool {
        valid_header(self@)
    }

    /// Takes over a file's bytes. A file without a whole header and signature is started
    /// afresh as a bare header, and the edit that does so on disk comes back.
    pub fn open(existing: Vec<u8>) -> (r: (Storage, Option<FileEdit>))
        ensures
            r.0.wf(),
            valid_header(existing@) ==> r.0@ == existing@ && r.1 is None,
            !valid_header(existing@) ==> r.0@ == header() && (r.1 matches Some(e) && e.truncate_to
                == 0 && e.append@ == header()),
    {
        let n = existing.len();
        let ok = n >= HEADER_LEN && existing[0] == 0 && existing[1] == 104 && existing[2] == 105
            && existing[3] == 107 && existing[4] == 105 && existing[5] == 118;
        proof {
            if ok {
                assert(existing@.take(6) =~= magic());
            } else if existing@.len() >= HEADER_LEN && existing@.take(6) == magic() {
                assert(existing@[0] == existing@.take(6)[0]);
                assert(existing@[1] == existing@.take(6)[1]);
                assert(existing@[2] == existing@.take(6)[2]);
                assert(existing@[3] == existing@.take(6)[3]);
                assert(existing@[4] == existing@.take(6)[4]);
                assert(existing@[5] == existing@.take(6)[5]);
            }
        }
        if ok {
            (Storage { data: existing }, None)
        } else {
            let h = header_bytes();
            let fresh = header_bytes();
            proof {
                assert(header().take(6) =~= magic());
            }
            (Storage { data: h }, Some(FileEdit { truncate_to: 0, append: fresh }))
        }
    }

    /// The file's bytes.
    pub fn bytes(&self) -> (r: &Vec<u8>)
        ensures
            r@ == self@,
    {
        &self.data
    }

    /// Appends a record, whether or not the key is already stored.
    pub fn write_data_entry(&mut self, key: &String, value: &String) -> (r: Result<FileEdit, StorageError>)
        requires
            old(self).wf(),
        ensures
            final(self).wf(),
            r is Ok <==> encodable(key@, value@),
            r matches Ok(e) ==> final(self)@ == old(self)@ + entry_bytes(key@, value@) && e.truncate_to
                == old(self)@.len() && applied(old(self)@, e) == final(self)@,
            r matches Err(e) ==> e == encode_error(key@) && final(self)@ == old(self)@,
    {
        let entry = match encode_entry(key, value) {
            Ok(b) => b,
            Err(e) => {
                return Err(e);
            },
        };
        let at = self.data.len();
        append_bytes(&mut self.data, entry.as_slice());
        proof {
            assert(self@.take(6) =~= old(self)@.take(6));
            assert(old(self)@.take(at as int) =~= old(self)@);
        }
        Ok(FileEdit { truncate_to: at, append: entry })
    }

    /// The value of the first record of `key`.
    pub fn get_data_entry(&self, key: &String) -> (r: Result<Option<String>, StorageError>)
        ensures
            value_view(&r) == stored_value(self@, key@),
    {
        match find_entry(&self.data, HEADER_LEN, key) {
            Lookup::Found { offset, length, value_start } => {
                let vb = copy_range(&self.data, value_start, offset + length);
                match decode_text(vb) {
                    Some(s) => Ok(Some(s)),
                    None => Err(StorageError::Corrupt),
                }
            },
            Lookup::Absent => Ok(None),
            Lookup::Corrupt => Err(StorageError::Corrupt),
        }
    }

    /// Moves the bytes after a record of `length` bytes at `offset` back over it, and puts
    /// `insert` in its place.
    fn splice(&mut self, offset: usize, length: usize, insert: &Vec<u8>) -> (e: FileEdit)
        requires
            old(self).wf(),
            HEADER_LEN <= offset,
            offset + length <= old(self)@.len(),
        ensures
            final(self).wf(),
            final(self)@ == old(self)@.take(offset as int) + insert@ + old(self)@.skip(offset + length),
            e.truncate_to == offset,
            applied(old(self)@, e) == final(self)@,
    {
        let n = self.data.len();
        let tail = copy_range(&self.data, offset + length, n);
        self.data.truncate(offset);
        append_bytes(&mut self.data, insert.as_slice());
        append_bytes(&mut self.data, tail.as_slice());
        let mut moved: Vec<u8> = Vec::new();
        append_bytes(&mut moved, insert.as_slice());
        append_bytes(&mut moved, tail.as_slice());
        proof {
            assert(tail@ =~= old(self)@.skip(offset + length));
            assert(self@.take(6) =~= old(self)@.take(6));
            assert(self@ =~= old(self)@.take(offset as int) + insert@ + old(self)@.skip(offset + length));
            assert(applied(old(self)@, FileEdit { truncate_to: offset, append: moved }) =~= self@);
        }
        FileEdit { truncate_to: offset, append: moved }
    }

    /// Removes the first record of `key`; with no such record nothing changes.
    pub fn delete_data_entry(&mut self, key: &String) -> (r: Result<Option<FileEdit>, StorageError>)
        requires
            old(self).wf(),
        ensures
            final(self).wf(),
            r is Err <==> lookup(old(self)@, key@) is Corrupt,
            r matches Err(e) ==> e == StorageError::Corrupt,
            r matches Ok(None) ==> lookup(old(self)@, key@) is Absent,
            r matches Ok(Some(e)) ==> applied(old(self)@, e) == final(self)@,
            final(self)@ == deleted(old(self)@, key@),
    {
        match find_entry(&self.data, HEADER_LEN, key) {
            Lookup::Found { offset, length, value_start } => {
                let nothing: Vec<u8> = Vec::new();
                let e = self.splice(offset, length, &nothing);
                proof {
                    assert(self@ =~= deleted(old(self)@, key@));
                }
                Ok(Some(e))
            },
            Lookup::Absent => Ok(None),
            Lookup::Corrupt => Err(StorageError::Corrupt),
        }
    }

    /// Replaces the first record of `key`, where it stands, by one holding `new_value`;
    /// with no such record nothing changes.
    pub fn update_data_entry(&mut self, key: &String, new_value: &String) -> (r: Result<Option<FileEdit>, StorageError>)
        requires
            old(self).wf(),
        ensures
            final(self).wf(),
            r matches Err(e) ==> final(self)@ == old(self)@ && (e == StorageError::Corrupt
                <==> lookup(old(self)@, key@) is Corrupt),
            r is Err <==> (lookup(old(self)@, key@) is Corrupt || (lookup(old(self)@, key@) is Found
                && !encodable(key@, new_value@))),
            r matches Err(e) ==> (lookup(old(self)@, key@) is Found ==> e == encode_error(key@)),
            r matches Ok(None) ==> lookup(old(self)@, key@) is Absent,
            r matches Ok(Some(e)) ==> applied(old(self)@, e) == final(self)@,
            r is Ok ==> final(self)@ == updated(old(self)@, key@, new_value@),
    {
        match find_entry(&self.data, HEADER_LEN, key) {
            Lookup::Found { offset, length, value_start } => {
                let entry = match encode_entry(key, new_value) {
                    Ok(b) => b,
                    Err(e) => {
                        return Err(e);
                    },
                };
                let e = self.splice(offset, length, &entry);
                Ok(Some(e))
            },
            Lookup::Absent => Ok(None),
            Lookup::Corrupt => Err(StorageError::Corrupt),
        }
    }
}

} // verus!
