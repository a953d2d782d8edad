//! A store of shell variables in one block of bytes that processes can share.
//!
//! The block starts with a header and holds entries behind it. Entries are only ever appended: a
//! variable is set by a tombstone, which drops what was recorded for the name before, and by the
//! entries of the new value behind it. The bytes themselves are what processes exchange, so a store
//! can be taken up from bytes that another process wrote.

use std::collections::BTreeMap;

use vstd::prelude::*;
use vstd::slice::{slice_subrange, slice_to_vec};
use vstd::utf8::*;

use crate::effective;
use crate::error::{Error, Fault};
use crate::indexed;
use crate::indexed::in_order;
use crate::journal;
use crate::journal::{Record, Write};
use crate::layout;
use crate::layout::{
    encode_entry_header, encode_header, load_entry_header, load_header, store, EntryHeader,
    EntryType, RegionHeader, ENTRY_STATE_LIVE, ENTRY_STATE_TOMBSTONE, SHARED_MAGIC, SHARED_VERSION,
};
use crate::name_map;
use crate::name_map::NameMap;
use crate::text;
use crate::text::{decimal_string, from_utf8_lossy, parse_u64, same_text};

verus! {

/// A store in a block of bytes.
#[derive(Debug)]
pub struct SharedRegion {
    bytes: Vec<u8>,
    granted: u64,
}

impl View for SharedRegion {
    type V = Seq<u8>;

    closed spec fn view(&self) -> Seq<u8> {
        self.bytes@
    }
}

/// The header of a store of `size` bytes without entries.
pub open spec fn fresh_header(size: int) -> RegionHeader {
    RegionHeader {
        magic: SHARED_MAGIC,
        version: SHARED_VERSION,
        total_size: size as u32,
        used_bytes: 48,
        entry_count: 0,
        tombstone_count: 0,
        generation: 0,
        reserved: 0,
    }
}

/// `img` with the header of a store without entries.
pub open spec fn freshened(img: Seq<u8>) -> Seq<u8> {
    layout::overwrite(img, 0, layout::header_bytes(fresh_header(img.len() as int)))
}

/// `n` zero bytes.
pub open spec fn zeros(n: nat) -> Seq<u8> {
    Seq::new(n, |i: int| 0u8)
}

/// What came of a write: the image after it, and its result.
pub open spec fn wrote(
    img: Seq<u8>,
    granted: nat,
    w: Write,
    img2: Seq<u8>,
    r: Result<(), Error>,
) -> bool {
    match journal::write_outcome(img, granted, w) {
        Ok(next) => img2 == next && r == Ok::<(), Error>(()),
        Err(e) => img2 == img && r == Err::<(), Error>(e),
    }
}

/// A new store is sound, and nothing is recorded in it.
pub proof fn fresh_store_is_sound(img: Seq<u8>)
    requires
        journal::sized(img),
    ensures
        journal::sound(freshened(img)),
        journal::region_records(freshened(img)) == Ok::<Seq<Record>, Fault>(seq![]),
        freshened(img).len() == img.len(),
{
    let h = fresh_header(img.len() as int);
    let img2 = freshened(img);
    layout::lemma_header_len(h);
    assert(img2.take(48) =~= layout::header_bytes(h));
    layout::header_round_trip(h, img2);
    assert(journal::tiles(img2, 48, 48));
}

impl SharedRegion {
    /// How many bytes the memory behind the store may take.
    pub closed spec fn granted(self) -> nat {
        self.granted as nat
    }

    /// The store holds a header, and its size fits there.
    pub open spec fn wf(self) -> bool {
        journal::sized(self@)
    }

    /// Makes a store of `size` bytes, which may grow without bound.
    pub fn create(size: usize) -> (r: Result<SharedRegion, Error>)
        ensures
            size < 60 <==> r == Err::<SharedRegion, Error>(
                Error::InternalError(Fault::SizeTooSmall),
            ),
            size > u32::MAX <==> r == Err::<SharedRegion, Error>(
                Error::InternalError(Fault::RegionTooLarge),
            ),
            60 <= size <= u32::MAX <==> r is Ok,
            r matches Ok(region) ==> {
                &&& region.wf()
                &&& region@ == freshened(zeros(size as nat))
                &&& region.granted() == u64::MAX
                &&& journal::sound(region@)
                &&& journal::region_records(region@) == Ok::<Seq<Record>, Fault>(seq![])
            },
    {
        if size < 60 {
            return Err(Error::InternalError(Fault::SizeTooSmall));
        }
        if size as u64 > 0xffff_ffff {
            return Err(Error::InternalError(Fault::RegionTooLarge));
        }
        let mut region = SharedRegion { bytes: vec![0u8; size], granted: u64::MAX };
        assert(region@ =~= zeros(size as nat));
        region.write_fresh_header();
        proof {
            fresh_store_is_sound(zeros(size as nat));
        }
        Ok(region)
    }

    /// Takes up the store in `bytes`, which may grow to `granted` bytes.
    pub fn from_bytes(bytes: Vec<u8>, granted: u64) -> (r: Result<SharedRegion, Error>)
        ensures
            bytes@.len() < 48 <==> r == Err::<SharedRegion, Error>(
                Error::InternalError(Fault::RegionTooSmall),
            ),
            bytes@.len() > u32::MAX <==> r == Err::<SharedRegion, Error>(
                Error::InternalError(Fault::RegionTooLarge),
            ),
            journal::sized(bytes@) <==> r is Ok,
            r matches Ok(region) ==> {
                &&& region.wf()
                &&& region@ == bytes@
                &&& region.granted() == granted
            },
    {
        if bytes.len() < 48 {
            return Err(Error::InternalError(Fault::RegionTooSmall));
        }
        if bytes.len() as u64 > 0xffff_ffff {
            return Err(Error::InternalError(Fault::RegionTooLarge));
        }
        Ok(SharedRegion { bytes, granted })
    }

    /// A copy of the store.
    pub fn copied(&self) -> (r: SharedRegion)
        ensures
            r@ == self@,
            r.granted() == self.granted(),
    {
        SharedRegion { bytes: slice_to_vec(self.bytes.as_slice()), granted: self.granted }
    }

    /// The bytes of the store.
    pub fn bytes(&self) -> (r: &Vec<u8>)
        ensures
            r@ == self@,
    {
        &self.bytes
    }

    /// The size of the store, in bytes.
    pub fn size(&self) -> (r: usize)
        ensures
            r == self@.len(),
    {
        self.bytes.len()
    }

    /// The size that the header declares, where it is larger than the bytes at hand: another
    /// process has grown the store.
    pub fn declared_growth(&self) -> (r: Option<u32>)
        requires
            self.wf(),
        ensures
            ({
                let declared = layout::header_of(self@).total_size;
                r == if declared > self@.len() {
                    Some(declared)
                } else {
                    None
                }
            }),
    {
        let declared = load_header(&self.bytes).total_size;
        if declared as u64 > self.bytes.len() as u64 {
            Some(declared)
        } else {
            None
        }
    }

    fn write_header(&mut self, header: &RegionHeader)
        requires
            old(self).wf(),
        ensures
            final(self).wf(),
            final(self)@ == layout::overwrite(old(self)@, 0, layout::header_bytes(*header)),
            final(self).granted() == old(self).granted(),
    {
        let encoded = encode_header(header);
        store(&mut self.bytes, 0, encoded.as_slice());
    }

    fn write_fresh_header(&mut self)
        requires
            old(self).wf(),
        ensures
            final(self).wf(),
            final(self)@ == freshened(old(self)@),
            final(self).granted() == old(self).granted(),
    {
        let header = RegionHeader {
            magic: SHARED_MAGIC,
            version: SHARED_VERSION,
            total_size: self.bytes.len() as u32,
            used_bytes: 48,
            entry_count: 0,
            tombstone_count: 0,
            generation: 0,
            reserved: 0,
        };
        self.write_header(&header);
    }

    /// Writes the header of an empty store, unless there is one already.
    pub fn initialize_header(&mut self)
        requires
            old(self).wf(),
        ensures
            final(self).wf(),
            final(self)@ == if layout::header_of(old(self)@).magic == SHARED_MAGIC {
                old(self)@
            } else {
                freshened(old(self)@)
            },
            final(self).granted() == old(self).granted(),
    {
        let header = load_header(&self.bytes);
        if header.magic != SHARED_MAGIC {
            self.write_fresh_header();
        }
    }

    /// Makes room for `needed` bytes.
    fn grow(&mut self, needed: u64) -> (r: Result<(), Error>)
        requires
            old(self).wf(),
            old(self)@.len() < needed < 0x4_0000_0000,
        ensures
            final(self).wf(),
            final(self).granted() == old(self).granted(),
            ({
                let size = journal::grown_size(old(self)@.len() as int, needed as int);
                if size > old(self).granted() {
                    &&& r == Err::<(), Error>(Error::GrowthRefused { size: size as u64 })
                    &&& final(self)@ == old(self)@
                } else if size > u32::MAX {
                    &&& r == Err::<(), Error>(Error::InternalError(Fault::SharedRegionTooLarge))
                    &&& final(self)@ == old(self)@
                } else {
                    &&& r == Ok::<(), Error>(())
                    &&& final(self)@ == journal::enlarged(old(self)@, size)
                }
            }),
    {
        let len = self.bytes.len();
        let start: u64 = if len < 4096 {
            4096
        } else {
            len as u64
        };
        let mut size: u64 = start;
        while size < needed
            invariant
                0 < size,
                needed < 0x4_0000_0000,
                journal::doubled_until(size as int, needed as int) == journal::doubled_until(
                    start as int,
                    needed as int,
                ),
            decreases (if size < needed {
                needed - size
            } else {
                0
            }),
        {
            size = size * 2;
        }
        proof {
            journal::grown_size_suffices(len as int, needed as int);
            assert(size == journal::grown_size(len as int, needed as int));
        }
        if size > self.granted {
            return Err(Error::GrowthRefused { size });
        }
        if size > 0xffff_ffff {
            return Err(Error::InternalError(Fault::SharedRegionTooLarge));
        }
        let mut header = load_header(&self.bytes);
        header.total_size = size as u32;
        self.write_header(&header);
        let ghost before = self@;
        self.bytes.resize(size as usize, 0);
        proof {
            layout::lemma_header_len(header);
            assert(before.len() == len);
            assert forall|i: int| 0 <= i < len implies #[trigger] self@[i] == before[i] by {
                assert(self@.subrange(0, len as int)[i] == before[i]);
            }
            assert(self@ =~= before + zeros((size - len) as nat));
        }
        Ok(())
    }

    /// Appends an entry with the given texts.
    fn append_entry(&mut self, entry: &EntryHeader, name: &[u8], key: &[u8], val: &[u8]) -> (r:
        Result<(), Error>)
        requires
            old(self).wf(),
            EntryType::of_byte(entry.entry_type) is Some,
            entry.name_len == name@.len(),
            entry.key_len == key@.len(),
            entry.val_len == val@.len(),
        ensures
            final(self).wf(),
            final(self).granted() == old(self).granted(),
            match journal::append_outcome(
                old(self)@,
                old(self).granted(),
                (Record {
                    state: entry.state,
                    entry_type: EntryType::of_byte(entry.entry_type)->Some_0,
                    name: name@,
                    key: key@,
                    val: val@,
                }),
            ) {
                Ok(next) => final(self)@ == next && r == Ok::<(), Error>(()),
                Err(e) => final(self)@ == old(self)@ && r == Err::<(), Error>(e),
            },
    {
        let ghost record = Record {
            state: entry.state,
            entry_type: EntryType::of_byte(entry.entry_type)->Some_0,
            name: name@,
            key: key@,
            val: val@,
        };
        proof {
            layout::entry_type_byte_round_trip(record.entry_type, entry.entry_type);
        }
        assert(*entry == journal::record_header(record));
        let mut header = load_header(&self.bytes);
        let used: u64 = header.used_bytes as u64;
        let total: u64 = 12 + entry.name_len as u64 + entry.key_len as u64 + entry.val_len as u64;
        if used + total > self.bytes.len() as u64 {
            let grown = self.grow(used + total);
            if grown.is_err() {
                return grown;
            }
            proof {
                journal::grown_size_suffices(old(self)@.len() as int, used + total);
                journal::enlarged_keeps_header(
                    old(self)@,
                    journal::grown_size(old(self)@.len() as int, used + total),
                );
            }
            header = load_header(&self.bytes);
        }
        let ghost img = self@;
        let mut encoded = encode_entry_header(entry);
        encoded.extend_from_slice(name);
        encoded.extend_from_slice(key);
        encoded.extend_from_slice(val);
        assert(encoded@ =~= journal::record_bytes(record));
        store(&mut self.bytes, used as usize, encoded.as_slice());

        header.used_bytes = (used + total) as u32;
        header.entry_count = header.entry_count.saturating_add(1);
        if entry.state == ENTRY_STATE_TOMBSTONE {
            header.tombstone_count = header.tombstone_count.saturating_add(1);
        }
        header.generation = header.generation.saturating_add(1);
        self.write_header(&header);
        Ok(())
    }

    /// Drops what is recorded for `name`.
    fn append_tombstone(&mut self, name: &str) -> (r: Result<(), Error>)
        requires
            old(self).wf(),
        ensures
            final(self).wf(),
            final(self).granted() == old(self).granted(),
            wrote(
                old(self)@,
                old(self).granted(),
                effective::tombstone_write(name@),
                final(self)@,
                r,
            ),
    {
        let name_bytes = name.as_bytes();
        if name_bytes.len() > 65535 {
            return Err(Error::InternalError(Fault::NameTooLong));
        }
        let entry = EntryHeader {
            state: ENTRY_STATE_TOMBSTONE,
            entry_type: EntryType::Meta.to_byte(),
            name_len: name_bytes.len() as u16,
            key_len: 0,
            val_len: 0,
        };
        let empty: Vec<u8> = Vec::new();
        proof {
            layout::entry_type_byte_round_trip(EntryType::Meta, entry.entry_type);
            assert(encode_utf8(Seq::<char>::empty()) =~= Seq::<u8>::empty());
            assert(empty@ =~= Seq::<u8>::empty());
        }
        self.append_entry(&entry, name_bytes, empty.as_slice(), empty.as_slice())
    }

    /// Records `value` for `name` under `key`.
    fn append_kv_entry(&mut self, entry_type: EntryType, name: &str, key: &str, value: &str) -> (r:
        Result<(), Error>)
        requires
            old(self).wf(),
        ensures
            final(self).wf(),
            final(self).granted() == old(self).granted(),
            wrote(
                old(self)@,
                old(self).granted(),
                effective::live_write(entry_type, name@, key@, value@),
                final(self)@,
                r,
            ),
    {
        let name_bytes = name.as_bytes();
        let key_bytes = key.as_bytes();
        let value_bytes = value.as_bytes();
        if name_bytes.len() > 65535 {
            return Err(Error::InternalError(Fault::NameTooLong));
        }
        if key_bytes.len() > 65535 {
            return Err(Error::InternalError(Fault::KeyTooLong));
        }
        if value_bytes.len() as u64 > 0xffff_ffff {
            return Err(Error::InternalError(Fault::ValueTooLong));
        }
        let entry = EntryHeader {
            state: ENTRY_STATE_LIVE,
            entry_type: entry_type.to_byte(),
            name_len: name_bytes.len() as u16,
            key_len: key_bytes.len() as u16,
            val_len: value_bytes.len() as u32,
        };
        proof {
            layout::entry_type_byte_round_trip(entry_type, entry.entry_type);
        }
        self.append_entry(&entry, name_bytes, key_bytes, value_bytes)
    }

    /// Records metadata of `name`.
    fn append_meta(&mut self, name: &str, key: &str, value: &str) -> (r: Result<(), Error>)
        requires
            old(self).wf(),
        ensures
            final(self).wf(),
            final(self).granted() == old(self).granted(),
            wrote(
                old(self)@,
                old(self).granted(),
                effective::live_write(EntryType::Meta, name@, key@, value@),
                final(self)@,
                r,
            ),
    {
        self.append_kv_entry(EntryType::Meta, name, key, value)
    }
}

/// An entry read from the store.
#[derive(Debug)]
struct DecodedEntry {
    state: u8,
    entry_type: EntryType,
    name: String,
    key: String,
    val: Vec<u8>,
}

/// Whether `e` is what `r` reads as.
spec fn decoded(e: DecodedEntry, r: Record) -> bool {
    &&& e.state == r.state
    &&& e.entry_type == r.entry_type
    &&& e.name@ == text::lossy_text(r.name)
    &&& e.key@ == text::lossy_text(r.key)
    &&& e.val@ == r.val
}

/// Whether `es` are what `rs` read as.
spec fn all_decoded(es: Seq<DecodedEntry>, rs: Seq<Record>) -> bool {
    &&& es.len() == rs.len()
    &&& forall|i: int| 0 <= i < rs.len() ==> decoded(#[trigger] es[i], rs[i])
}

/// The bytes of `bytes[from..to]`.
fn bytes_between(bytes: &Vec<u8>, from: usize, to: usize) -> (r: &[u8])
    requires
        from <= to <= bytes@.len(),
    ensures
        r@ == bytes@.subrange(from as int, to as int),
{
    slice_subrange(bytes.as_slice(), from, to)
}

impl SharedRegion {
    /// Reads all entries, in order.
    fn scan_entries(&self) -> (r: Result<Vec<DecodedEntry>, Error>)
        requires
            self.wf(),
        ensures
            match journal::region_records(self@) {
                Ok(rs) => r matches Ok(es) && all_decoded(es@, rs),
                Err(fault) => r == Err::<Vec<DecodedEntry>, Error>(Error::InternalError(fault)),
            },
    {
        let ghost img = self@;
        let header = load_header(&self.bytes);
        let used: u64 = header.used_bytes as u64;
        if used > self.bytes.len() as u64 || used < 48 {
            return Err(Error::InternalError(Fault::CorruptHeader));
        }
        let mut entries: Vec<DecodedEntry> = Vec::new();
        let mut off: u64 = 48;
        let ghost mut done: Seq<Record> = seq![];
        proof {
            let all = journal::records_from(img, 48, used as int);
            if let Ok(rs) = all {
                assert(done + rs =~= rs);
            }
        }
        while off + 12 <= used
            invariant
                img == self@,
                img.len() == self.bytes.len(),
                48 <= off <= used <= img.len() <= u32::MAX,
                all_decoded(entries@, done),
                journal::records_from(img, 48, used as int) == (match journal::records_from(
                    img,
                    off as int,
                    used as int,
                ) {
                    Ok(rest) => Ok::<Seq<Record>, Fault>(done + rest),
                    Err(fault) => Err(fault),
                }),
                journal::region_records(img) == journal::records_from(img, 48, used as int),
            decreases used - off,
        {
            let e = load_entry_header(&self.bytes, off as usize);
            let name_at: u64 = off + 12;
            let key_at: u64 = name_at + e.name_len as u64;
            let val_at: u64 = key_at + e.key_len as u64;
            let end: u64 = val_at + e.val_len as u64;
            if end > used {
                return Err(Error::InternalError(Fault::CorruptEntry));
            }
            match EntryType::from_byte(e.entry_type) {
                None => {
                    return Err(Error::InternalError(Fault::UnknownEntryType));
                },
                Some(entry_type) => {
                    let ghost record = journal::record_at(img, off as int, entry_type);
                    let name = from_utf8_lossy(
                        bytes_between(&self.bytes, name_at as usize, key_at as usize),
                    );
                    let key = from_utf8_lossy(
                        bytes_between(&self.bytes, key_at as usize, val_at as usize),
                    );
                    let val = slice_to_vec(
                        bytes_between(&self.bytes, val_at as usize, end as usize),
                    );
                    entries.push(DecodedEntry { state: e.state, entry_type, name, key, val });
                    proof {
                        if let Ok(rest) = journal::records_from(img, end as int, used as int) {
                            assert(done + (seq![record] + rest) =~= done.push(record) + rest);
                        }
                        done = done.push(record);
                    }
                },
            }
            off = end;
        }
        assert(done + Seq::<Record>::empty() =~= done);
        Ok(entries)
    }

    /// Sets a scalar.
    pub fn set_scalar(&mut self, name: &str, value: &str) -> (r: Result<(), Error>)
        requires
            old(self).wf(),
        ensures
            final(self).wf(),
            final(self).granted() == old(self).granted(),
            (final(self)@, r) == journal::run(
                old(self)@,
                old(self).granted(),
                effective::scalar_writes(name@, value@),
            ),
    {
        let ghost ws = effective::scalar_writes(name@, value@);
        let ghost img = self@;
        proof {
            assert(ws.skip(0) =~= ws);
            journal::run_step(img, self.granted(), ws, 0);
        }
        self.append_tombstone(name)?;
        proof {
            journal::run_step(self@, self.granted(), ws, 1);
        }
        self.append_meta(name, "type", "scalar")?;
        proof {
            journal::run_step(self@, self.granted(), ws, 2);
            reveal_strlit("");
            assert(""@ =~= seq![]);
        }
        self.append_kv_entry(EntryType::Scalar, name, "", value)?;
        Ok(())
    }

    /// Drops what is recorded for `name`.
    pub fn unset_name(&mut self, name: &str) -> (r: Result<(), Error>)
        requires
            old(self).wf(),
        ensures
            final(self).wf(),
            final(self).granted() == old(self).granted(),
            (final(self)@, r) == journal::run(
                old(self)@,
                old(self).granted(),
                effective::unset_writes(name@),
            ),
    {
        proof {
            let ws = effective::unset_writes(name@);
            assert(ws.skip(0) =~= ws);
            journal::run_step(self@, self.granted(), ws, 0);
        }
        self.append_tombstone(name)
    }

    /// Sets metadata of `name`.
    pub fn set_meta(&mut self, name: &str, key: &str, value: &str) -> (r: Result<(), Error>)
        requires
            old(self).wf(),
        ensures
            final(self).wf(),
            final(self).granted() == old(self).granted(),
            (final(self)@, r) == journal::run(
                old(self)@,
                old(self).granted(),
                effective::meta_writes(name@, key@, value@),
            ),
    {
        proof {
            let ws = effective::meta_writes(name@, key@, value@);
            assert(ws.skip(0) =~= ws);
            journal::run_step(self@, self.granted(), ws, 0);
        }
        self.append_meta(name, key, value)
    }

    /// Sets an indexed array.
    pub fn set_indexed_array(&mut self, name: &str, values: &BTreeMap<u64, String>) -> (r: Result<
        (),
        Error,
    >)
        requires
            old(self).wf(),
        ensures
            final(self).wf(),
            final(self).granted() == old(self).granted(),
            (final(self)@, r) == journal::run(
                old(self)@,
                old(self).granted(),
                effective::array_writes(name@, indexed::array_texts(values@)),
            ),
    {
        let ghost ws = effective::array_writes(name@, indexed::array_texts(values@));
        let ghost img = self@;
        let ghost granted = self.granted();
        let entries = in_order(values);
        proof {
            assert(ws.skip(0) =~= ws);
            journal::run_step(self@, granted, ws, 0);
        }
        self.append_tombstone(name)?;
        proof {
            journal::run_step(self@, granted, ws, 1);
        }
        self.append_meta(name, "type", "array")?;
        let mut i: usize = 0;
        while i < entries.len()
            invariant
                i <= entries@.len(),
                ws == effective::array_writes(name@, indexed::array_texts(values@)),
                indexed::entry_texts(entries@) == effective::listing(
                    indexed::array_texts(values@),
                ),
                img == old(self)@,
                granted == old(self).granted(),
                self.wf(),
                self.granted() == granted,
                journal::run(img, granted, ws) == journal::run(self@, granted, ws.skip(i + 2)),
            decreases entries@.len() - i,
        {
            let key = decimal_string(entries[i].0);
            proof {
                journal::run_step(self@, granted, ws, i + 2);
                assert(indexed::entry_texts(entries@)[i as int] == (
                    entries@[i as int].0,
                    entries@[i as int].1@,
                ));
            }
            self.append_kv_entry(
                EntryType::ArrayElement,
                name,
                key.as_str(),
                entries[i].1.as_str(),
            )?;
            i += 1;
        }
        assert(indexed::entry_texts(entries@).len() == entries@.len());
        Ok(())
    }

    /// Sets an associative array.
    pub fn set_assoc_array(&mut self, name: &str, values: &NameMap<String>) -> (r: Result<
        (),
        Error,
    >)
        requires
            old(self).wf(),
            values.wf(),
        ensures
            final(self).wf(),
            final(self).granted() == old(self).granted(),
            (final(self)@, r) == journal::run(
                old(self)@,
                old(self).granted(),
                effective::assoc_writes(name@, name_map::texts(*values)),
            ),
    {
        let ghost ws = effective::assoc_writes(name@, name_map::texts(*values));
        let ghost img = self@;
        let ghost granted = self.granted();
        proof {
            name_map::text_items_list_texts(*values);
            effective::text_listing_is_unique(
                name_map::text_items(*values),
                name_map::texts(*values),
            );
            assert(ws.skip(0) =~= ws);
            journal::run_step(self@, granted, ws, 0);
        }
        self.append_tombstone(name)?;
        proof {
            journal::run_step(self@, granted, ws, 1);
        }
        self.append_meta(name, "type", "assoc")?;
        let mut i: usize = 0;
        while i < values.len()
            invariant
                i <= values.items().len(),
                name_map::text_items(*values) == effective::text_listing(
                    name_map::texts(*values),
                ),
                ws == effective::assoc_writes(name@, name_map::texts(*values)),
                img == old(self)@,
                granted == old(self).granted(),
                self.wf(),
                self.granted() == granted,
                journal::run(img, granted, ws) == journal::run(self@, granted, ws.skip(i + 2)),
            decreases values.items().len() - i,
        {
            proof {
                journal::run_step(self@, granted, ws, i + 2);
            }
            self.append_kv_entry(
                EntryType::AssocElement,
                name,
                values.name_at(i).as_str(),
                values.value_at(i).as_str(),
            )?;
            i += 1;
        }
        Ok(())
    }

    /// Reads the scalar `name`.
    pub fn get_scalar(&self, name: &str) -> (r: Result<Option<String>, Error>)
        requires
            self.wf(),
        ensures
            match effective::read_scalar(self@, name@) {
                Ok(value) => r matches Ok(v) && text::optional_text(v) == value,
                Err(e) => r == Err::<Option<String>, Error>(e),
            },
    {
        let entries = self.scan_entries()?;
        let ghost rs = journal::region_records(self@)->Ok_0;
        let mut current: Option<String> = None;
        let mut i: usize = 0;
        while i < entries.len()
            invariant
                i <= entries@.len(),
                all_decoded(entries@, rs),
                text::optional_text(current) == effective::scalar_after(
                    rs.take(i as int),
                    name@,
                ),
            decreases entries@.len() - i,
        {
            let e = &entries[i];
            proof {
                assert(decoded(entries@[i as int], rs[i as int]));
                assert(rs.take(i + 1).drop_last() =~= rs.take(i as int));
            }
            if same_text(e.name.as_str(), name) {
                if e.state == ENTRY_STATE_TOMBSTONE {
                    current = None;
                } else if e.entry_type == EntryType::Scalar {
                    current = Some(from_utf8_lossy(e.val.as_slice()));
                }
            }
            i += 1;
        }
        assert(rs.take(i as int) =~= rs);
        Ok(current)
    }

    /// Reads metadata of `name`.
    pub fn get_meta(&self, name: &str, key: &str) -> (r: Result<Option<String>, Error>)
        requires
            self.wf(),
        ensures
            match effective::read_meta(self@, name@, key@) {
                Ok(value) => r matches Ok(v) && text::optional_text(v) == value,
                Err(e) => r == Err::<Option<String>, Error>(e),
            },
    {
        let entries = self.scan_entries()?;
        let ghost rs = journal::region_records(self@)->Ok_0;
        let mut current: Option<String> = None;
        let mut i: usize = 0;
        while i < entries.len()
            invariant
                i <= entries@.len(),
                all_decoded(entries@, rs),
                text::optional_text(current) == effective::meta_after(
                    rs.take(i as int),
                    name@,
                    key@,
                ),
            decreases entries@.len() - i,
        {
            let e = &entries[i];
            proof {
                assert(decoded(entries@[i as int], rs[i as int]));
                assert(rs.take(i + 1).drop_last() =~= rs.take(i as int));
            }
            if same_text(e.name.as_str(), name) {
                if e.state == ENTRY_STATE_TOMBSTONE {
                    current = None;
                } else if e.entry_type == EntryType::Meta && same_text(e.key.as_str(), key) {
                    current = Some(from_utf8_lossy(e.val.as_slice()));
                }
            }
            i += 1;
        }
        assert(rs.take(i as int) =~= rs);
        Ok(current)
    }

    /// Reads the indexed array `name`.
    pub fn get_indexed_array(&self, name: &str) -> (r: Result<BTreeMap<u64, String>, Error>)
        requires
            self.wf(),
        ensures
            match effective::read_array(self@, name@) {
                Ok(values) => r matches Ok(m) && indexed::array_texts(m@) == values,
                Err(e) => r == Err::<BTreeMap<u64, String>, Error>(e),
            },
    {
        let entries = self.scan_entries()?;
        let ghost rs = journal::region_records(self@)->Ok_0;
        let mut current: BTreeMap<u64, String> = BTreeMap::new();
        let mut i: usize = 0;
        assert(indexed::array_texts(current@) =~= Map::<u64, Seq<char>>::empty());
        while i < entries.len()
            invariant
                i <= entries@.len(),
                all_decoded(entries@, rs),
                indexed::array_texts(current@) == effective::array_after(
                    rs.take(i as int),
                    name@,
                ),
            decreases entries@.len() - i,
        {
            let e = &entries[i];
            let ghost before = current@;
            proof {
                assert(decoded(entries@[i as int], rs[i as int]));
                assert(rs.take(i + 1).drop_last() =~= rs.take(i as int));
            }
            if same_text(e.name.as_str(), name) {
                if e.state == ENTRY_STATE_TOMBSTONE {
                    current.clear();
                    assert(indexed::array_texts(current@) =~= Map::<u64, Seq<char>>::empty());
                } else if e.entry_type == EntryType::ArrayElement {
                    if let Some(index) = parse_u64(e.key.as_str()) {
                        let value = from_utf8_lossy(e.val.as_slice());
                        current.insert(index, value);
                        assert(indexed::array_texts(current@) =~= indexed::array_texts(
                            before,
                        ).insert(index, value@));
                    }
                }
            }
            i += 1;
        }
        assert(rs.take(i as int) =~= rs);
        Ok(current)
    }

    /// Reads the associative array `name`.
    pub fn get_assoc_array(&self, name: &str) -> (r: Result<NameMap<String>, Error>)
        requires
            self.wf(),
        ensures
            match effective::read_assoc(self@, name@) {
                Ok(values) => r matches Ok(m) && m.wf() && name_map::texts(m) == values,
                Err(e) => r == Err::<NameMap<String>, Error>(e),
            },
    {
        let entries = self.scan_entries()?;
        let ghost rs = journal::region_records(self@)->Ok_0;
        let mut current: NameMap<String> = NameMap::new();
        let mut i: usize = 0;
        assert(name_map::texts(current) =~= Map::<Seq<char>, Seq<char>>::empty());
        while i < entries.len()
            invariant
                i <= entries@.len(),
                all_decoded(entries@, rs),
                current.wf(),
                name_map::texts(current) == effective::assoc_after(rs.take(i as int), name@),
            decreases entries@.len() - i,
        {
            let e = &entries[i];
            let ghost before = current;
            proof {
                assert(decoded(entries@[i as int], rs[i as int]));
                assert(rs.take(i + 1).drop_last() =~= rs.take(i as int));
            }
            if same_text(e.name.as_str(), name) {
                if e.state == ENTRY_STATE_TOMBSTONE {
                    current = NameMap::new();
                    assert(name_map::texts(current) =~= Map::<Seq<char>, Seq<char>>::empty());
                } else if e.entry_type == EntryType::AssocElement {
                    let value = from_utf8_lossy(e.val.as_slice());
                    current.insert(e.key.as_str(), value);
                    assert(name_map::texts(current) =~= name_map::texts(before).insert(
                        e.key@,
                        value@,
                    ));
                }
            }
            i += 1;
        }
        assert(rs.take(i as int) =~= rs);
        Ok(current)
    }
}

} // verus!
