//! What the bytes of a shared region mean: the records they hold, and what appending does to them.

use vstd::prelude::*;
use vstd::utf8::*;

use crate::error::{Error, Fault};
use crate::layout;
use crate::layout::{
    EntryHeader, EntryType, RegionHeader, ENTRY_STATE_TOMBSTONE, SHARED_MAGIC, SHARED_VERSION,
};

verus! {

/// One entry of a region, with its name, key and value as stored bytes.
#[verifier::ext_equal]
pub struct Record {
    /// Live or tombstone.
    pub state: u8,
    /// What the entry holds.
    pub entry_type: EntryType,
    /// The variable that the entry belongs to.
    pub name: Seq<u8>,
    /// The array key or metadata key; empty where there is none.
    pub key: Seq<u8>,
    /// The value; empty where there is none.
    pub val: Seq<u8>,
}

/// Whether the lengths of a record fit its header.
pub open spec fn record_fits(r: Record) -> bool {
    &&& r.name.len() <= u16::MAX
    &&& r.key.len() <= u16::MAX
    &&& r.val.len() <= u32::MAX
}

/// The entry header of a record.
pub open spec fn record_header(r: Record) -> EntryHeader {
    EntryHeader {
        state: r.state,
        entry_type: r.entry_type.byte(),
        name_len: r.name.len() as u16,
        key_len: r.key.len() as u16,
        val_len: r.val.len() as u32,
    }
}

/// The bytes that store a record.
pub open spec fn record_bytes(r: Record) -> Seq<u8> {
    layout::entry_header_bytes(record_header(r)) + r.name + r.key + r.val
}

/// The number of bytes that store a record.
pub open spec fn record_len(r: Record) -> int {
    12int + r.name.len() + r.key.len() + r.val.len()
}

/// Where the entry stored at `off` ends.
pub open spec fn entry_end(img: Seq<u8>, off: int) -> int {
    let e = layout::entry_header_at(img, off);
    off + 12 + e.name_len + e.key_len + e.val_len
}

/// The record stored at `off`, of type `t`.
pub open spec fn record_at(img: Seq<u8>, off: int, t: EntryType) -> Record {
    let e = layout::entry_header_at(img, off);
    let name = off + 12;
    let key = name + e.name_len;
    let val = key + e.key_len;
    Record {
        state: e.state,
        entry_type: t,
        name: img.subrange(name, key),
        key: img.subrange(key, val),
        val: img.subrange(val, val + e.val_len),
    }
}

/// The records stored from `off` up to `used`, or the first fault among them.
pub open spec fn records_from(img: Seq<u8>, off: int, used: int) -> Result<Seq<Record>, Fault>
    decreases used - off,
{
    if off + 12 > used {
        Ok(seq![])
    } else if entry_end(img, off) > used {
        Err(Fault::CorruptEntry)
    } else {
        match EntryType::of_byte(layout::entry_header_at(img, off).entry_type) {
            None => Err(Fault::UnknownEntryType),
            Some(t) => match records_from(img, entry_end(img, off), used) {
                Ok(rest) => Ok(seq![record_at(img, off, t)] + rest),
                Err(fault) => Err(fault),
            },
        }
    }
}

/// The records of a region, or why they cannot be read.
pub open spec fn region_records(img: Seq<u8>) -> Result<Seq<Record>, Fault> {
    let used = layout::header_of(img).used_bytes as int;
    if used > img.len() || used < 48 {
        Err(Fault::CorruptHeader)
    } else {
        records_from(img, 48, used)
    }
}

/// Whether whole entries of known types fill the bytes from `off` to `used` exactly.
pub open spec fn tiles(img: Seq<u8>, off: int, used: int) -> bool
    decreases used - off,
{
    ||| off == used
    ||| {
        &&& off + 12 <= used
        &&& entry_end(img, off) <= used
        &&& EntryType::of_byte(layout::entry_header_at(img, off).entry_type) is Some
        &&& tiles(img, entry_end(img, off), used)
    }
}

/// How many of `rs` are tombstones.
pub open spec fn tombstones(rs: Seq<Record>) -> nat
    decreases rs.len(),
{
    if rs.len() == 0 {
        0
    } else {
        tombstones(rs.drop_last()) + if rs.last().state == ENTRY_STATE_TOMBSTONE {
            1nat
        } else {
            0nat
        }
    }
}

/// An image whose header can be read and whose size the header can record.
pub open spec fn sized(img: Seq<u8>) -> bool {
    48 <= img.len() <= u32::MAX
}

/// An image as the store leaves it: initialized, its size recorded, filled with whole entries up
/// to the end of the bytes in use, and with counters that agree with the entries.
pub open spec fn sound(img: Seq<u8>) -> bool {
    let h = layout::header_of(img);
    &&& sized(img)
    &&& h.magic == SHARED_MAGIC
    &&& h.version == SHARED_VERSION
    &&& h.total_size == img.len()
    &&& 48 <= h.used_bytes <= img.len()
    &&& tiles(img, 48, h.used_bytes as int)
    &&& region_records(img) matches Ok(rs) && {
        &&& h.entry_count == rs.len()
        &&& h.tombstone_count == tombstones(rs)
        &&& h.generation == rs.len()
        &&& 48 + 12 * rs.len() <= h.used_bytes
    }
}

/// `x + 1`, or `max` where that is past `max`.
pub open spec fn bumped(x: int, max: int) -> int {
    if x < max {
        x + 1
    } else {
        x
    }
}

/// The header of `img` after a record has been appended.
pub open spec fn advanced_header(img: Seq<u8>, r: Record) -> RegionHeader {
    let h = layout::header_of(img);
    RegionHeader {
        used_bytes: (h.used_bytes + record_len(r)) as u32,
        entry_count: bumped(h.entry_count as int, u32::MAX as int) as u32,
        tombstone_count: if r.state == ENTRY_STATE_TOMBSTONE {
            bumped(h.tombstone_count as int, u32::MAX as int) as u32
        } else {
            h.tombstone_count
        },
        generation: bumped(h.generation as int, u64::MAX as int) as u64,
        ..h
    }
}

/// `img` with a record stored behind the bytes in use and the header advanced past it.
pub open spec fn appended(img: Seq<u8>, r: Record) -> Seq<u8> {
    layout::overwrite(
        layout::overwrite(img, layout::header_of(img).used_bytes as int, record_bytes(r)),
        0,
        layout::header_bytes(advanced_header(img, r)),
    )
}

/// The first size of at least `needed` among `size`, twice `size`, four times `size` and so on.
pub open spec fn doubled_until(size: int, needed: int) -> int
    decreases (if size < needed { needed - size } else { 0 }),
{
    if size >= needed || size <= 0 {
        size
    } else {
        doubled_until(2 * size, needed)
    }
}

/// The size to which a region of `size` bytes grows to hold `needed` bytes: doubled as often as
/// it takes, from one page at least.
pub open spec fn grown_size(size: int, needed: int) -> int {
    doubled_until(if size < 4096 { 4096 } else { size }, needed)
}

/// Growth reaches what is needed and stays below twice that.
pub proof fn grown_size_suffices(size: int, needed: int)
    requires
        0 <= size < needed,
    ensures
        needed <= grown_size(size, needed),
        grown_size(size, needed) < 2 * needed || grown_size(size, needed) == 4096,
        size < grown_size(size, needed),
{
    lemma_doubled_until(if size < 4096 { 4096 } else { size }, needed);
}

proof fn lemma_doubled_until(size: int, needed: int)
    requires
        0 < size,
    ensures
        doubled_until(size, needed) >= needed,
        doubled_until(size, needed) >= size,
        size < needed ==> doubled_until(size, needed) < 2 * needed,
        size >= needed ==> doubled_until(size, needed) == size,
    decreases (if size < needed { needed - size } else { 0 }),
{
    if size < needed {
        lemma_doubled_until(2 * size, needed);
    }
}

/// `img` grown to `size` bytes: the header records the new size, and the new bytes are zero.
pub open spec fn enlarged(img: Seq<u8>, size: int) -> Seq<u8> {
    layout::overwrite(
        img,
        0,
        layout::header_bytes(RegionHeader { total_size: size as u32, ..layout::header_of(img) }),
    ) + Seq::new((size - img.len()) as nat, |i: int| 0u8)
}

/// What appending a record to `img` gives where the memory behind it may take `granted` bytes:
/// the new image, or the error, on which the image stays as it is.
pub open spec fn append_outcome(img: Seq<u8>, granted: nat, r: Record) -> Result<Seq<u8>, Error> {
    let needed = layout::header_of(img).used_bytes + record_len(r);
    if needed <= img.len() {
        Ok(appended(img, r))
    } else {
        let size = grown_size(img.len() as int, needed);
        if size > granted {
            Err(Error::GrowthRefused { size: size as u64 })
        } else if size > u32::MAX {
            Err(Error::InternalError(Fault::SharedRegionTooLarge))
        } else {
            Ok(appended(enlarged(img, size), r))
        }
    }
}

/// An entry that is to be appended, with its texts.
#[verifier::ext_equal]
pub struct Write {
    /// Live or tombstone.
    pub state: u8,
    /// What the entry holds.
    pub entry_type: EntryType,
    /// The variable that the entry belongs to.
    pub name: Seq<char>,
    /// The array key or metadata key; empty where there is none.
    pub key: Seq<char>,
    /// The value; empty where there is none.
    pub val: Seq<char>,
}

/// The record of a write: its texts as UTF-8.
pub open spec fn record_of(w: Write) -> Record {
    Record {
        state: w.state,
        entry_type: w.entry_type,
        name: encode_utf8(w.name),
        key: encode_utf8(w.key),
        val: encode_utf8(w.val),
    }
}

/// Which of the texts of a write is too long to be recorded, if any.
pub open spec fn length_fault(w: Write) -> Option<Fault> {
    if encode_utf8(w.name).len() > u16::MAX {
        Some(Fault::NameTooLong)
    } else if encode_utf8(w.key).len() > u16::MAX {
        Some(Fault::KeyTooLong)
    } else if encode_utf8(w.val).len() > u32::MAX {
        Some(Fault::ValueTooLong)
    } else {
        None
    }
}

/// What one write to `img` gives.
pub open spec fn write_outcome(img: Seq<u8>, granted: nat, w: Write) -> Result<Seq<u8>, Error> {
    match length_fault(w) {
        Some(fault) => Err(Error::InternalError(fault)),
        None => append_outcome(img, granted, record_of(w)),
    }
}

/// What a sequence of writes to `img` gives: the image in the end, and the error of the first
/// write that failed. The writes before a failed one stay, those behind it are not made.
pub open spec fn run(img: Seq<u8>, granted: nat, ws: Seq<Write>) -> (Seq<u8>, Result<(), Error>)
    decreases ws.len(),
{
    if ws.len() == 0 {
        (img, Ok(()))
    } else {
        match write_outcome(img, granted, ws[0]) {
            Err(e) => (img, Err(e)),
            Ok(next) => run(next, granted, ws.drop_first()),
        }
    }
}

/// How many of a sequence of writes are made.
pub open spec fn writes_made(img: Seq<u8>, granted: nat, ws: Seq<Write>) -> nat
    decreases ws.len(),
{
    if ws.len() == 0 {
        0
    } else {
        match write_outcome(img, granted, ws[0]) {
            Err(e) => 0,
            Ok(next) => 1 + writes_made(next, granted, ws.drop_first()),
        }
    }
}

/// One write of a run, with `k` of the writes made.
pub proof fn run_step(img: Seq<u8>, granted: nat, ws: Seq<Write>, k: int)
    requires
        0 <= k < ws.len(),
    ensures
        run(img, granted, ws.skip(k)) == (match write_outcome(img, granted, ws[k]) {
            Err(e) => (img, Err::<(), Error>(e)),
            Ok(next) => run(next, granted, ws.skip(k + 1)),
        }),
        k + 1 == ws.len() ==> forall|next: Seq<u8>| #[trigger]
            run(next, granted, ws.skip(k + 1)) == (next, Ok::<(), Error>(())),
{
    assert(ws.skip(k)[0] == ws[k]);
    assert(ws.skip(k).drop_first() =~= ws.skip(k + 1));
}

/// Two runs of writes, one behind the other, are one run.
pub proof fn run_concat(img: Seq<u8>, granted: nat, a: Seq<Write>, b: Seq<Write>)
    ensures
        run(img, granted, a + b) == (match run(img, granted, a) {
            (next, Ok(())) => run(next, granted, b),
            (next, Err(e)) => (next, Err(e)),
        }),
    decreases a.len(),
{
    if a.len() == 0 {
        assert(a + b =~= b);
    } else {
        assert((a + b)[0] == a[0]);
        assert((a + b).drop_first() =~= a.drop_first() + b);
        if let Ok(next) = write_outcome(img, granted, a[0]) {
            run_concat(next, granted, a.drop_first(), b);
        }
    }
}

/// The bytes of a record are as many as its length says.
pub proof fn lemma_record_bytes_len(r: Record)
    ensures
        record_bytes(r).len() == record_len(r),
{
    layout::lemma_entry_header_len(record_header(r));
}

/// The records of an image extended by one stored record.
proof fn lemma_records_extended(img: Seq<u8>, img2: Seq<u8>, off: int, used: int, r: Record)
    requires
        0 <= off <= used <= img.len(),
        tiles(img, off, used),
        record_fits(r),
        used + record_len(r) <= img2.len(),
        forall|i: int| off <= i < used ==> #[trigger] img2[i] == img[i],
        img2.subrange(used, used + record_len(r)) == record_bytes(r),
    ensures
        tiles(img2, off, used + record_len(r)),
        records_from(img, off, used) is Ok,
        records_from(img2, off, used + record_len(r)) == Ok::<Seq<Record>, Fault>(
            records_from(img, off, used)->Ok_0.push(r),
        ),
    decreases used - off,
{
    let end2 = used + record_len(r);
    lemma_record_bytes_len(r);
    let e = record_header(r);
    let b = record_bytes(r);
    layout::lemma_entry_header_len(e);
    if off == used {
        let n = r.name.len() as int;
        let k = r.key.len() as int;
        let v = r.val.len() as int;
        assert(img2.subrange(off, off + 12) =~= b.subrange(0, 12));
        assert(b.subrange(0, 12) =~= layout::entry_header_bytes(e));
        layout::entry_header_round_trip(e, img2, off);
        assert(entry_end(img2, off) == end2);
        assert(img2.subrange(off + 12, off + 12 + n) =~= b.subrange(12, 12 + n));
        assert(img2.subrange(off + 12 + n, off + 12 + n + k) =~= b.subrange(12 + n, 12 + n + k));
        assert(img2.subrange(off + 12 + n + k, off + 12 + n + k + v) =~= b.subrange(
            12 + n + k,
            12 + n + k + v,
        ));
        assert(b.subrange(12, 12 + n) =~= r.name);
        assert(b.subrange(12 + n, 12 + n + k) =~= r.key);
        assert(b.subrange(12 + n + k, 12 + n + k + v) =~= r.val);
        assert(record_at(img2, off, r.entry_type) =~= r);
        layout::entry_type_byte_round_trip(r.entry_type, e.entry_type);
        assert(tiles(img2, end2, end2));
        assert(tiles(img2, off, end2));
        assert(records_from(img2, end2, end2) == Ok::<Seq<Record>, Fault>(seq![]));
        assert(seq![r] + Seq::<Record>::empty() =~= Seq::<Record>::empty().push(r));
    } else {
        let end = entry_end(img, off);
        assert(img2.subrange(off + 2, off + 4) =~= img.subrange(off + 2, off + 4));
        assert(img2.subrange(off + 4, off + 6) =~= img.subrange(off + 4, off + 6));
        assert(img2.subrange(off + 8, off + 12) =~= img.subrange(off + 8, off + 12));
        assert(layout::entry_header_at(img2, off) == layout::entry_header_at(img, off));
        lemma_records_extended(img, img2, end, used, r);
        let t = EntryType::of_byte(layout::entry_header_at(img, off).entry_type)->Some_0;
        assert(record_at(img2, off, t) =~= record_at(img, off, t));
        let rest = records_from(img, end, used)->Ok_0;
        let one = seq![record_at(img, off, t)];
        assert(one + rest.push(r) =~= (one + rest).push(r));
    }
}

/// A header written over the start of an image is read from there, and the rest stays.
pub proof fn lemma_overwrite_header(img: Seq<u8>, h: RegionHeader)
    requires
        img.len() >= 48,
    ensures
        layout::overwrite(img, 0, layout::header_bytes(h)).len() == img.len(),
        layout::header_of(layout::overwrite(img, 0, layout::header_bytes(h))) == h,
        forall|i: int|
            48 <= i < img.len() ==> #[trigger] layout::overwrite(
                img,
                0,
                layout::header_bytes(h),
            )[i] == img[i],
{
    layout::lemma_header_len(h);
    let img2 = layout::overwrite(img, 0, layout::header_bytes(h));
    assert(img2.take(48) =~= layout::header_bytes(h));
    layout::header_round_trip(h, img2);
}

/// Appending to a sound image that has room keeps it sound and adds the record to its records.
proof fn lemma_appended(img: Seq<u8>, r: Record)
    requires
        sound(img),
        record_fits(r),
        layout::header_of(img).used_bytes + record_len(r) <= img.len(),
    ensures
        sound(appended(img, r)),
        region_records(appended(img, r)) == Ok::<Seq<Record>, Fault>(
            region_records(img)->Ok_0.push(r),
        ),
        appended(img, r).len() == img.len(),
{
    let h = layout::header_of(img);
    let used = h.used_bytes as int;
    let len = record_len(r);
    lemma_record_bytes_len(r);
    let mid = layout::overwrite(img, used, record_bytes(r));
    let h2 = advanced_header(img, r);
    let img2 = appended(img, r);
    lemma_overwrite_header(mid, h2);
    assert(img2.subrange(used, used + len) =~= record_bytes(r));
    lemma_records_extended(img, img2, 48, used, r);
    let rs = region_records(img)->Ok_0;
    assert(rs.push(r).drop_last() =~= rs);
    lemma_tombstones_bound(rs);
}

proof fn lemma_tombstones_bound(rs: Seq<Record>)
    ensures
        tombstones(rs) <= rs.len(),
    decreases rs.len(),
{
    if rs.len() > 0 {
        lemma_tombstones_bound(rs.drop_last());
    }
}

/// Records and tiling depend only on the bytes in use.
proof fn lemma_records_same(img: Seq<u8>, img2: Seq<u8>, off: int, used: int)
    requires
        0 <= off <= used <= img.len(),
        used <= img2.len(),
        tiles(img, off, used),
        forall|i: int| off <= i < used ==> #[trigger] img2[i] == img[i],
    ensures
        tiles(img2, off, used),
        records_from(img2, off, used) == records_from(img, off, used),
    decreases used - off,
{
    if off < used {
        let end = entry_end(img, off);
        assert(img2.subrange(off + 2, off + 4) =~= img.subrange(off + 2, off + 4));
        assert(img2.subrange(off + 4, off + 6) =~= img.subrange(off + 4, off + 6));
        assert(img2.subrange(off + 8, off + 12) =~= img.subrange(off + 8, off + 12));
        assert(layout::entry_header_at(img2, off) == layout::entry_header_at(img, off));
        lemma_records_same(img, img2, end, used);
        let t = EntryType::of_byte(layout::entry_header_at(img, off).entry_type)->Some_0;
        assert(record_at(img2, off, t) =~= record_at(img, off, t));
    }
}

/// Growing an image changes nothing in its header but the recorded size.
pub proof fn enlarged_keeps_header(img: Seq<u8>, size: int)
    requires
        sized(img),
        img.len() <= size <= u32::MAX,
    ensures
        enlarged(img, size).len() == size,
        layout::header_of(enlarged(img, size)) == (RegionHeader {
            total_size: size as u32,
            ..layout::header_of(img)
        }),
{
    let h2 = RegionHeader { total_size: size as u32, ..layout::header_of(img) };
    lemma_overwrite_header(img, h2);
    let img2 = enlarged(img, size);
    layout::lemma_header_len(h2);
    assert(img2.take(48) =~= layout::header_bytes(h2));
    layout::header_round_trip(h2, img2);
}

/// Growing a sound image keeps it sound and keeps its records.
proof fn lemma_enlarged(img: Seq<u8>, size: int)
    requires
        sound(img),
        img.len() <= size <= u32::MAX,
    ensures
        sound(enlarged(img, size)),
        region_records(enlarged(img, size)) == region_records(img),
        enlarged(img, size).len() == size,
        layout::header_of(enlarged(img, size)).used_bytes == layout::header_of(img).used_bytes,
{
    let h = layout::header_of(img);
    let h2 = RegionHeader { total_size: size as u32, ..h };
    enlarged_keeps_header(img, size);
    lemma_overwrite_header(img, h2);
    let img2 = enlarged(img, size);
    lemma_records_same(img, img2, 48, h.used_bytes as int);
}

/// A write to a sound image leaves a sound image, which holds one record more.
pub proof fn write_keeps_sound(img: Seq<u8>, granted: nat, w: Write)
    requires
        sound(img),
        write_outcome(img, granted, w) is Ok,
    ensures
        sound(write_outcome(img, granted, w)->Ok_0),
        region_records(write_outcome(img, granted, w)->Ok_0) == Ok::<Seq<Record>, Fault>(
            region_records(img)->Ok_0.push(record_of(w)),
        ),
        write_outcome(img, granted, w)->Ok_0.len() >= img.len(),
{
    let r = record_of(w);
    let needed = layout::header_of(img).used_bytes + record_len(r);
    if needed <= img.len() {
        lemma_appended(img, r);
    } else {
        let size = grown_size(img.len() as int, needed);
        grown_size_suffices(img.len() as int, needed);
        lemma_enlarged(img, size);
        lemma_appended(enlarged(img, size), r);
    }
}

/// Writes to a sound image leave a sound image, whether or not one of them fails: its records are
/// those of before and, behind them, those of the writes that were made. All were made if and only
/// if none failed.
pub proof fn run_keeps_sound(img: Seq<u8>, granted: nat, ws: Seq<Write>)
    requires
        sound(img),
    ensures
        sound(run(img, granted, ws).0),
        run(img, granted, ws).0.len() >= img.len(),
        writes_made(img, granted, ws) <= ws.len(),
        run(img, granted, ws).1 is Ok <==> writes_made(img, granted, ws) == ws.len(),
        region_records(run(img, granted, ws).0) == Ok::<Seq<Record>, Fault>(
            region_records(img)->Ok_0 + ws.take(writes_made(img, granted, ws) as int).map_values(
                |w: Write| record_of(w),
            ),
        ),
    decreases ws.len(),
{
    let rs = region_records(img)->Ok_0;
    let f = |w: Write| record_of(w);
    if ws.len() == 0 || write_outcome(img, granted, ws[0]) is Err {
        assert(rs + ws.take(0).map_values(f) =~= rs);
    } else {
        let next = write_outcome(img, granted, ws[0])->Ok_0;
        write_keeps_sound(img, granted, ws[0]);
        run_keeps_sound(next, granted, ws.drop_first());
        let made = writes_made(next, granted, ws.drop_first()) as int;
        assert(rs.push(f(ws[0])) + ws.drop_first().take(made).map_values(f) =~= rs + ws.take(
            made + 1,
        ).map_values(f));
    }
}

/// What writes give does not depend on how far the memory may grow, as long as they succeed.
pub proof fn more_memory_changes_nothing(img: Seq<u8>, granted: nat, more: nat, ws: Seq<Write>)
    requires
        granted <= more,
        run(img, granted, ws).1 is Ok,
    ensures
        run(img, more, ws) == run(img, granted, ws),
    decreases ws.len(),
{
    if ws.len() > 0 {
        let next = write_outcome(img, granted, ws[0])->Ok_0;
        more_memory_changes_nothing(next, granted, more, ws.drop_first());
    }
}

/// How many bytes the records of writes take.
pub open spec fn total_len(ws: Seq<Write>) -> int
    decreases ws.len(),
{
    if ws.len() == 0 {
        0
    } else {
        record_len(record_of(ws[0])) + total_len(ws.drop_first())
    }
}

/// Writes whose texts can be recorded succeed while the store takes no more than half of what its
/// header can record, and the memory behind it may grow to all of that.
pub proof fn fitting_writes_succeed(img: Seq<u8>, granted: nat, ws: Seq<Write>)
    requires
        sound(img),
        granted >= u32::MAX,
        forall|i: int| 0 <= i < ws.len() ==> length_fault(#[trigger] ws[i]) is None,
        layout::header_of(img).used_bytes + total_len(ws) <= 0x8000_0000,
    ensures
        run(img, granted, ws).1 == Ok::<(), Error>(()),
    decreases ws.len(),
{
    if ws.len() > 0 {
        let w = ws[0];
        let r = record_of(w);
        let used = layout::header_of(img).used_bytes;
        let needed = used + record_len(r);
        lemma_total_len(ws.drop_first());
        assert(length_fault(ws[0]) is None);
        if needed > img.len() {
            grown_size_suffices(img.len() as int, needed);
            enlarged_keeps_header(img, grown_size(img.len() as int, needed));
        }
        assert(write_outcome(img, granted, w) is Ok);
        let next = write_outcome(img, granted, w)->Ok_0;
        write_keeps_sound(img, granted, w);
        let room = if needed <= img.len() {
            img
        } else {
            enlarged(img, grown_size(img.len() as int, needed))
        };
        lemma_record_bytes_len(r);
        lemma_overwrite_header(
            layout::overwrite(room, used as int, record_bytes(r)),
            advanced_header(room, r),
        );
        assert(layout::header_of(next).used_bytes == needed);
        assert forall|i: int| 0 <= i < ws.drop_first().len() implies length_fault(
            #[trigger] ws.drop_first()[i],
        ) is None by {
            assert(length_fault(ws[i + 1]) is None);
        }
        fitting_writes_succeed(next, granted, ws.drop_first());
    }
}

proof fn lemma_total_len(ws: Seq<Write>)
    ensures
        total_len(ws) >= 0,
    decreases ws.len(),
{
    if ws.len() > 0 {
        lemma_total_len(ws.drop_first());
    }
}

} // verus!
