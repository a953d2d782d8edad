//! Where the bytes of a store stand, what a write does to them, and what records give a name.

use vstd::arithmetic::power2::*;
use vstd::bytes::*;
use vstd::prelude::*;
use vstd::utf8::*;

use crate::effective;
use crate::error::{Error, Fault};
use crate::journal;
use crate::journal::{Record, Write};
use crate::layout;
use crate::layout::{EntryType, RegionHeader};
use crate::shared_memory;
use crate::text;

verus! {

/// The bytes that stand for the types of entries.
pub proof fn entry_types_have_their_bytes(v: u8)
    ensures
        EntryType::Scalar.byte() == 1,
        EntryType::ArrayElement.byte() == 2,
        EntryType::AssocElement.byte() == 3,
        EntryType::Meta.byte() == 4,
        v == 1 ==> EntryType::of_byte(v) == Some(EntryType::Scalar),
        v == 2 ==> EntryType::of_byte(v) == Some(EntryType::ArrayElement),
        v == 3 ==> EntryType::of_byte(v) == Some(EntryType::AssocElement),
        v == 4 ==> EntryType::of_byte(v) == Some(EntryType::Meta),
        v == 0 || v > 4 ==> EntryType::of_byte(v) is None,
{
}

/// Where the fields of a region header stand among its 48 bytes, least significant byte first.
pub proof fn header_fields_have_their_places(h: RegionHeader)
    ensures
        layout::header_bytes(h).len() == 48,
        layout::header_bytes(h).subrange(0, 4) == spec_u32_to_le_bytes(h.magic),
        layout::header_bytes(h).subrange(4, 8) == spec_u32_to_le_bytes(h.version),
        layout::header_bytes(h).subrange(8, 12) == spec_u32_to_le_bytes(h.total_size),
        layout::header_bytes(h).subrange(12, 16) == spec_u32_to_le_bytes(h.used_bytes),
        layout::header_bytes(h).subrange(16, 20) == spec_u32_to_le_bytes(h.entry_count),
        layout::header_bytes(h).subrange(20, 24) == spec_u32_to_le_bytes(h.tombstone_count),
        layout::header_bytes(h).subrange(24, 32) == spec_u64_to_le_bytes(h.generation),
        layout::header_bytes(h).subrange(32, 48) == spec_u128_to_le_bytes(h.reserved),
{
    lemma_auto_spec_u32_to_from_le_bytes();
    lemma_auto_spec_u64_to_from_le_bytes();
    lemma_auto_spec_u128_to_from_le_bytes();
    let b = layout::header_bytes(h);
    assert(b.subrange(0, 4) =~= spec_u32_to_le_bytes(h.magic));
    assert(b.subrange(4, 8) =~= spec_u32_to_le_bytes(h.version));
    assert(b.subrange(8, 12) =~= spec_u32_to_le_bytes(h.total_size));
    assert(b.subrange(12, 16) =~= spec_u32_to_le_bytes(h.used_bytes));
    assert(b.subrange(16, 20) =~= spec_u32_to_le_bytes(h.entry_count));
    assert(b.subrange(20, 24) =~= spec_u32_to_le_bytes(h.tombstone_count));
    assert(b.subrange(24, 32) =~= spec_u64_to_le_bytes(h.generation));
    assert(b.subrange(32, 48) =~= spec_u128_to_le_bytes(h.reserved));
}

/// The header that an image holds is read from the same places.
pub proof fn header_fields_are_read_from_their_places(img: Seq<u8>)
    requires
        img.len() >= 48,
    ensures
        layout::header_of(img).magic == spec_u32_from_le_bytes(img.subrange(0, 4)),
        layout::header_of(img).version == spec_u32_from_le_bytes(img.subrange(4, 8)),
        layout::header_of(img).total_size == spec_u32_from_le_bytes(img.subrange(8, 12)),
        layout::header_of(img).used_bytes == spec_u32_from_le_bytes(img.subrange(12, 16)),
        layout::header_of(img).entry_count == spec_u32_from_le_bytes(img.subrange(16, 20)),
        layout::header_of(img).tombstone_count == spec_u32_from_le_bytes(img.subrange(20, 24)),
        layout::header_of(img).generation == spec_u64_from_le_bytes(img.subrange(24, 32)),
        layout::header_of(img).reserved == spec_u128_from_le_bytes(img.subrange(32, 48)),
{
}

/// Where the fields of a record stand among its bytes: state, type, lengths of name and key, two
/// zero bytes, length of the value, and then name, key and value.
pub proof fn record_fields_have_their_places(r: Record)
    requires
        r.name.len() <= 0xffff,
        r.key.len() <= 0xffff,
        r.val.len() <= 0xffff_ffff,
    ensures
        ({
            let b = journal::record_bytes(r);
            let n = r.name.len() as int;
            let k = r.key.len() as int;
            &&& b.len() == 12 + n + k + r.val.len()
            &&& b[0] == r.state
            &&& b[1] == r.entry_type.byte()
            &&& b.subrange(2, 4) == spec_u16_to_le_bytes(n as u16)
            &&& b.subrange(4, 6) == spec_u16_to_le_bytes(k as u16)
            &&& b[6] == 0
            &&& b[7] == 0
            &&& b.subrange(8, 12) == spec_u32_to_le_bytes(r.val.len() as u32)
            &&& b.subrange(12, 12 + n) == r.name
            &&& b.subrange(12 + n, 12 + n + k) == r.key
            &&& b.skip(12 + n + k) == r.val
        }),
{
    lemma_auto_spec_u16_to_from_le_bytes();
    lemma_auto_spec_u32_to_from_le_bytes();
    let e = journal::record_header(r);
    layout::lemma_entry_header_len(e);
    let h = layout::entry_header_bytes(e);
    let b = journal::record_bytes(r);
    let n = r.name.len() as int;
    let k = r.key.len() as int;
    assert(b.subrange(2, 4) =~= spec_u16_to_le_bytes(n as u16));
    assert(b.subrange(4, 6) =~= spec_u16_to_le_bytes(k as u16));
    assert(b.subrange(8, 12) =~= spec_u32_to_le_bytes(r.val.len() as u32));
    assert(b.subrange(12, 12 + n) =~= r.name);
    assert(b.subrange(12 + n, 12 + n + k) =~= r.key);
    assert(b.skip(12 + n + k) =~= r.val);
}

/// What is stored over some bytes of an image stands there, and every other byte stays.
pub proof fn overwriting_changes_only_its_place(img: Seq<u8>, at: int, src: Seq<u8>, i: int)
    requires
        0 <= at,
        at + src.len() <= img.len(),
        0 <= i < img.len(),
    ensures
        layout::overwrite(img, at, src).len() == img.len(),
        at <= i < at + src.len() ==> layout::overwrite(img, at, src)[i] == src[i - at],
        i < at || at + src.len() <= i ==> layout::overwrite(img, at, src)[i] == img[i],
{
}

/// A new store holds its header and zeros: the magic number, the version 1, its size, and 48 bytes
/// in use by no entries.
pub proof fn new_store_is_a_header_and_zeros(img: Seq<u8>, i: int)
    requires
        48 <= img.len() <= 0xffff_ffff,
    ensures
        shared_memory::freshened(img).len() == img.len(),
        48 <= i < img.len() ==> shared_memory::freshened(img)[i] == img[i],
        0 <= i < img.len() ==> shared_memory::zeros(img.len())[i] == 0,
        shared_memory::zeros(img.len()).len() == img.len(),
        layout::header_of(shared_memory::freshened(img)) == (RegionHeader {
            magic: 0x4D43_5348,
            version: 1,
            total_size: img.len() as u32,
            used_bytes: 48,
            entry_count: 0,
            tombstone_count: 0,
            generation: 0,
            reserved: 0,
        }),
{
    journal::lemma_overwrite_header(img, shared_memory::fresh_header(img.len() as int));
}

/// Appending a record stores it behind the bytes in use and advances the header past it: one entry
/// more, one change more, and one tombstone more where it is one. No other byte changes.
pub proof fn appending_stores_behind_the_bytes_in_use(img: Seq<u8>, r: Record, i: int)
    requires
        48 <= img.len() <= 0xffff_ffff,
        r.name.len() <= 0xffff,
        r.key.len() <= 0xffff,
        r.val.len() <= 0xffff_ffff,
        48 <= layout::header_of(img).used_bytes,
        layout::header_of(img).used_bytes + 12 + r.name.len() + r.key.len() + r.val.len()
            <= img.len(),
    ensures
        ({
            let h = layout::header_of(img);
            let len = 12 + r.name.len() + r.key.len() + r.val.len();
            let img2 = journal::appended(img, r);
            let h2 = layout::header_of(img2);
            &&& img2.len() == img.len()
            &&& img2.subrange(h.used_bytes as int, h.used_bytes + len) == journal::record_bytes(r)
            &&& 48 <= i < h.used_bytes ==> img2[i] == img[i]
            &&& h.used_bytes + len <= i < img.len() ==> img2[i] == img[i]
            &&& h2.magic == h.magic
            &&& h2.version == h.version
            &&& h2.total_size == h.total_size
            &&& h2.reserved == h.reserved
            &&& h2.used_bytes == h.used_bytes + len
            &&& h2.entry_count == if h.entry_count < 0xffff_ffff {
                h.entry_count + 1
            } else {
                0xffff_ffff
            }
            &&& r.state != 0xFF ==> h2.tombstone_count == h.tombstone_count
            &&& r.state == 0xFF ==> h2.tombstone_count == if h.tombstone_count < 0xffff_ffff {
                h.tombstone_count + 1
            } else {
                0xffff_ffff
            }
            &&& h2.generation == if h.generation < 0xffff_ffff_ffff_ffff {
                h.generation + 1
            } else {
                0xffff_ffff_ffff_ffff
            }
        }),
{
    let used = layout::header_of(img).used_bytes as int;
    journal::lemma_record_bytes_len(r);
    let b = journal::record_bytes(r);
    let mid = layout::overwrite(img, used, b);
    assert(mid.len() == img.len());
    journal::lemma_overwrite_header(mid, journal::advanced_header(img, r));
    let img2 = journal::appended(img, r);
    assert(img2.subrange(used, used + b.len()) =~= b) by {
        assert forall|j: int| 0 <= j < b.len() implies #[trigger] img2[used + j] == b[j] by {
            assert(mid[used + j] == b[j]);
        }
    }
}

/// A store grows by doubling from one page at least, and no further than it takes.
pub proof fn stores_grow_by_doubling(size: int, needed: int) -> (k: nat)
    requires
        0 <= size < needed,
    ensures
        ({
            let start: int = if size < 4096 {
                4096
            } else {
                size
            };
            &&& journal::grown_size(size, needed) == start * pow2(k)
            &&& start * pow2(k) >= needed
            &&& k > 0 ==> start * pow2((k - 1) as nat) < needed
        }),
{
    lemma_doubling(
        if size < 4096 {
            4096
        } else {
            size
        },
        needed,
    )
}

proof fn lemma_doubling(start: int, needed: int) -> (k: nat)
    requires
        0 < start,
    ensures
        journal::doubled_until(start, needed) == start * pow2(k),
        start * pow2(k) >= needed,
        k > 0 ==> start * pow2((k - 1) as nat) < needed,
    decreases (if start < needed { needed - start } else { 0 }),
{
    lemma2_to64();
    if start >= needed {
        assert(start * 1 == start);
        0
    } else {
        let k = lemma_doubling(2 * start, needed);
        lemma_pow2_unfold(k + 1);
        let p = pow2(k) as int;
        assert((2 * start) * p == start * (2 * p)) by (nonlinear_arith);
        if k > 0 {
            lemma_pow2_unfold(k);
            let q = pow2((k - 1) as nat) as int;
            assert((2 * start) * q == start * (2 * q)) by (nonlinear_arith);
        } else {
            assert(start * 1 == start);
        }
        k + 1
    }
}

/// Growing a store keeps its bytes, adds zeros behind them, and changes nothing in the header but
/// the size.
pub proof fn growing_adds_zeros(img: Seq<u8>, size: int, i: int)
    requires
        48 <= img.len() <= size <= 0xffff_ffff,
    ensures
        journal::enlarged(img, size).len() == size,
        48 <= i < img.len() ==> journal::enlarged(img, size)[i] == img[i],
        img.len() <= i < size ==> journal::enlarged(img, size)[i] == 0,
        layout::header_of(journal::enlarged(img, size)) == (RegionHeader {
            total_size: size as u32,
            ..layout::header_of(img)
        }),
{
    journal::enlarged_keeps_header(img, size);
    let h2 = RegionHeader { total_size: size as u32, ..layout::header_of(img) };
    journal::lemma_overwrite_header(img, h2);
}

/// A write is refused where a text of it is too long to be recorded: the name first, then the key,
/// then the value.
pub proof fn long_texts_are_refused(img: Seq<u8>, granted: nat, w: Write)
    ensures
        ({
            let n = encode_utf8(w.name).len();
            let k = encode_utf8(w.key).len();
            let v = encode_utf8(w.val).len();
            let r = journal::write_outcome(img, granted, w);
            &&& n > 65535 ==> r == Err::<Seq<u8>, Error>(Error::InternalError(Fault::NameTooLong))
            &&& n <= 65535 && k > 65535 ==> r == Err::<Seq<u8>, Error>(
                Error::InternalError(Fault::KeyTooLong),
            )
            &&& n <= 65535 && k <= 65535 && v > 0xffff_ffff ==> r == Err::<Seq<u8>, Error>(
                Error::InternalError(Fault::ValueTooLong),
            )
        }),
{
}

/// A write that the store has room for appends its record. One that it has none for grows the store
/// first, or is refused where the memory may not grow that far or the header could not record it.
pub proof fn writes_append_or_grow(img: Seq<u8>, granted: nat, w: Write)
    requires
        encode_utf8(w.name).len() <= 65535,
        encode_utf8(w.key).len() <= 65535,
        encode_utf8(w.val).len() <= 0xffff_ffff,
    ensures
        ({
            let record = Record {
                state: w.state,
                entry_type: w.entry_type,
                name: encode_utf8(w.name),
                key: encode_utf8(w.key),
                val: encode_utf8(w.val),
            };
            let needed = layout::header_of(img).used_bytes + 12 + encode_utf8(w.name).len()
                + encode_utf8(w.key).len() + encode_utf8(w.val).len();
            let size = journal::grown_size(img.len() as int, needed);
            let r = journal::write_outcome(img, granted, w);
            &&& needed <= img.len() ==> r == Ok::<Seq<u8>, Error>(journal::appended(img, record))
            &&& needed > img.len() && size > granted ==> r == Err::<Seq<u8>, Error>(
                Error::GrowthRefused { size: size as u64 },
            )
            &&& needed > img.len() && size <= granted && size > 0xffff_ffff ==> r == Err::<
                Seq<u8>,
                Error,
            >(Error::InternalError(Fault::SharedRegionTooLarge))
            &&& needed > img.len() && size <= granted && size <= 0xffff_ffff ==> r == Ok::<
                Seq<u8>,
                Error,
            >(journal::appended(journal::enlarged(img, size), record))
        }),
{
}

/// Writes are made one behind the other up to the first that fails, whose error is given; none is
/// made behind it.
pub proof fn writes_are_made_in_order(img: Seq<u8>, granted: nat, w: Write, ws: Seq<Write>)
    ensures
        journal::run(img, granted, seq![]) == (img, Ok::<(), Error>(())),
        match journal::write_outcome(img, granted, w) {
            Ok(next) => journal::run(img, granted, seq![w] + ws) == journal::run(next, granted, ws),
            Err(e) => journal::run(img, granted, seq![w] + ws) == (img, Err::<(), Error>(e)),
        },
{
    assert((seq![w] + ws)[0] == w);
    assert((seq![w] + ws).drop_first() =~= ws);
}

/// Setting a scalar drops what is recorded for the name, records the type and then the value.
pub proof fn scalars_are_set_by_three_writes(name: Seq<char>, val: Seq<char>)
    ensures
        effective::scalar_writes(name, val) == seq![
            (Write {
                state: 0xFF,
                entry_type: EntryType::Meta,
                name,
                key: seq![],
                val: seq![],
            }),
            (Write {
                state: 1,
                entry_type: EntryType::Meta,
                name,
                key: seq!['t', 'y', 'p', 'e'],
                val: seq!['s', 'c', 'a', 'l', 'a', 'r'],
            }),
            (Write { state: 1, entry_type: EntryType::Scalar, name, key: seq![], val }),
        ],
        effective::unset_writes(name) == seq![
            (Write {
                state: 0xFF,
                entry_type: EntryType::Meta,
                name,
                key: seq![],
                val: seq![],
            }),
        ],
{
    reveal_strlit("type");
    reveal_strlit("scalar");
    assert("type"@ =~= seq!['t', 'y', 'p', 'e']);
    assert("scalar"@ =~= seq!['s', 'c', 'a', 'l', 'a', 'r']);
}

/// Setting metadata records it, and drops nothing.
pub proof fn metadata_is_set_by_one_write(name: Seq<char>, key: Seq<char>, val: Seq<char>)
    ensures
        effective::meta_writes(name, key, val) == seq![
            (Write { state: 1, entry_type: EntryType::Meta, name, key, val }),
        ],
{
}

/// Setting an indexed array drops what is recorded for the name, records the type and then each
/// element under the digits of its index, by increasing index.
pub proof fn arrays_are_set_element_by_element(name: Seq<char>, values: Map<u64, Seq<char>>)
    ensures
        ({
            let ws = effective::array_writes(name, values);
            &&& ws.len() >= 2
            &&& ws[0] == (Write {
                state: 0xFF,
                entry_type: EntryType::Meta,
                name,
                key: seq![],
                val: seq![],
            })
            &&& ws[1] == (Write {
                state: 1,
                entry_type: EntryType::Meta,
                name,
                key: seq!['t', 'y', 'p', 'e'],
                val: seq!['a', 'r', 'r', 'a', 'y'],
            })
            &&& exists|listed: Seq<(u64, Seq<char>)>|
                {
                    &&& #[trigger] listed.len() == ws.len() - 2
                    &&& forall|i: int, j: int|
                        0 <= i < j < listed.len() ==> (#[trigger] listed[i]).0 < (
                        #[trigger] listed[j]).0
                    &&& forall|i: int|
                        0 <= i < listed.len() ==> values.contains_key((#[trigger] listed[i]).0)
                            && values[listed[i].0] == listed[i].1 && ws[i + 2] == (Write {
                            state: 1,
                            entry_type: EntryType::ArrayElement,
                            name,
                            key: text::decimal_text(listed[i].0 as nat),
                            val: listed[i].1,
                        })
                    &&& forall|k: u64| #[trigger]
                        values.contains_key(k) ==> exists|i: int|
                            0 <= i < listed.len() && (#[trigger] listed[i]).0 == k
                }
        }),
{
    reveal_strlit("type");
    reveal_strlit("array");
    assert("type"@ =~= seq!['t', 'y', 'p', 'e']);
    assert("array"@ =~= seq!['a', 'r', 'r', 'a', 'y']);
    effective::listing_lists(values);
    let listed = effective::listing(values);
    let ws = effective::array_writes(name, values);
    assert(listed.len() == ws.len() - 2);
}

/// Setting an associative array drops what is recorded for the name, records the type and then each
/// element under its key, in the order of the keys.
pub proof fn assocs_are_set_element_by_element(name: Seq<char>, values: Map<Seq<char>, Seq<char>>)
    requires
        values.dom().finite(),
    ensures
        ({
            let ws = effective::assoc_writes(name, values);
            &&& ws.len() >= 2
            &&& ws[0] == (Write {
                state: 0xFF,
                entry_type: EntryType::Meta,
                name,
                key: seq![],
                val: seq![],
            })
            &&& ws[1] == (Write {
                state: 1,
                entry_type: EntryType::Meta,
                name,
                key: seq!['t', 'y', 'p', 'e'],
                val: seq!['a', 's', 's', 'o', 'c'],
            })
            &&& forall|i: int|
                2 <= i < ws.len() ==> values.contains_key((#[trigger] ws[i]).key)
                    && values[ws[i].key] == ws[i].val && ws[i].state == 1 && ws[i].entry_type
                    == EntryType::AssocElement && ws[i].name == name
            &&& forall|i: int, j: int|
                2 <= i < j < ws.len() ==> text::text_before(
                    (#[trigger] ws[i]).key,
                    (#[trigger] ws[j]).key,
                )
            &&& forall|k: Seq<char>| #[trigger]
                values.contains_key(k) ==> exists|i: int|
                    2 <= i < ws.len() && (#[trigger] ws[i]).key == k
        }),
{
    reveal_strlit("type");
    reveal_strlit("assoc");
    assert("type"@ =~= seq!['t', 'y', 'p', 'e']);
    assert("assoc"@ =~= seq!['a', 's', 's', 'o', 'c']);
    effective::text_listing_lists(values);
    let listed = effective::text_listing(values);
    let ws = effective::assoc_writes(name, values);
    assert forall|i: int| 0 <= i < listed.len() implies (#[trigger] ws[i + 2]).key == listed[i].0
        && ws[i + 2].val == listed[i].1 by {}
    assert forall|i: int| 2 <= i < ws.len() implies values.contains_key((#[trigger] ws[i]).key)
        && values[ws[i].key] == ws[i].val by {
        assert(ws[(i - 2) + 2].key == listed[i - 2].0);
        assert(values.contains_key(listed[i - 2].0));
    }
    assert forall|i: int, j: int| 2 <= i < j < ws.len() implies text::text_before(
        (#[trigger] ws[i]).key,
        (#[trigger] ws[j]).key,
    ) by {
        assert(ws[(i - 2) + 2].key == listed[i - 2].0);
        assert(ws[(j - 2) + 2].key == listed[j - 2].0);
    }
    assert forall|k: Seq<char>| #[trigger] values.contains_key(k) implies exists|i: int|
        2 <= i < ws.len() && (#[trigger] ws[i]).key == k by {
        let i = choose|i: int| 0 <= i < listed.len() && (#[trigger] listed[i]).0 == k;
        assert(ws[i + 2].key == k);
    }
}

/// A record of another name changes nothing of what is read for a name.
pub proof fn record_of_another_name_changes_nothing(
    rs: Seq<Record>,
    r: Record,
    name: Seq<char>,
    key: Seq<char>,
)
    requires
        text::lossy_text(r.name) != name,
    ensures
        effective::scalar_after(rs.push(r), name) == effective::scalar_after(rs, name),
        effective::array_after(rs.push(r), name) == effective::array_after(rs, name),
        effective::assoc_after(rs.push(r), name) == effective::assoc_after(rs, name),
        effective::meta_after(rs.push(r), name, key) == effective::meta_after(rs, name, key),
{
    assert(rs.push(r).drop_last() =~= rs);
}

/// A tombstone drops all that was recorded for its name.
pub proof fn tombstone_drops_its_name(
    rs: Seq<Record>,
    r: Record,
    name: Seq<char>,
    key: Seq<char>,
)
    requires
        text::lossy_text(r.name) == name,
        r.state == 0xFF,
    ensures
        effective::scalar_after(rs.push(r), name) is None,
        effective::array_after(rs.push(r), name) == Map::<u64, Seq<char>>::empty(),
        effective::assoc_after(rs.push(r), name) == Map::<Seq<char>, Seq<char>>::empty(),
        effective::meta_after(rs.push(r), name, key) is None,
{
    assert(rs.push(r).drop_last() =~= rs);
}

/// Without records nothing is read.
pub proof fn no_records_give_nothing(name: Seq<char>, key: Seq<char>)
    ensures
        effective::scalar_after(seq![], name) is None,
        effective::array_after(seq![], name) == Map::<u64, Seq<char>>::empty(),
        effective::assoc_after(seq![], name) == Map::<Seq<char>, Seq<char>>::empty(),
        effective::meta_after(seq![], name, key) is None,
{
}

/// A record that is no tombstone gives its value to the name, to one element of it, or to one key of
/// its metadata, as its type says, and changes nothing else of what is read for the name.
pub proof fn live_record_gives_its_value(
    rs: Seq<Record>,
    r: Record,
    name: Seq<char>,
    key: Seq<char>,
)
    requires
        text::lossy_text(r.name) == name,
        r.state != 0xFF,
    ensures
        r.entry_type == EntryType::Scalar ==> effective::scalar_after(rs.push(r), name) == Some(
            text::lossy_text(r.val),
        ),
        r.entry_type != EntryType::Scalar ==> effective::scalar_after(rs.push(r), name)
            == effective::scalar_after(rs, name),
        r.entry_type == EntryType::ArrayElement ==> match text::parsed_number(
            text::lossy_text(r.key),
            0xffff_ffff_ffff_ffff,
        ) {
            Some(index) => effective::array_after(rs.push(r), name) == effective::array_after(
                rs,
                name,
            ).insert(index as u64, text::lossy_text(r.val)),
            None => effective::array_after(rs.push(r), name) == effective::array_after(rs, name),
        },
        r.entry_type != EntryType::ArrayElement ==> effective::array_after(rs.push(r), name)
            == effective::array_after(rs, name),
        r.entry_type == EntryType::AssocElement ==> effective::assoc_after(rs.push(r), name)
            == effective::assoc_after(rs, name).insert(
            text::lossy_text(r.key),
            text::lossy_text(r.val),
        ),
        r.entry_type != EntryType::AssocElement ==> effective::assoc_after(rs.push(r), name)
            == effective::assoc_after(rs, name),
        r.entry_type == EntryType::Meta && text::lossy_text(r.key) == key ==> effective::meta_after(
            rs.push(r),
            name,
            key,
        ) == Some(text::lossy_text(r.val)),
        r.entry_type != EntryType::Meta || text::lossy_text(r.key) != key ==> effective::meta_after(
            rs.push(r),
            name,
            key,
        ) == effective::meta_after(rs, name, key),
{
    assert(rs.push(r).drop_last() =~= rs);
}

/// What is read from a store is what its records give, or the fault among them.
pub proof fn reads_go_by_the_records(img: Seq<u8>, name: Seq<char>, key: Seq<char>)
    ensures
        journal::region_records(img) matches Ok(rs) ==> {
            &&& effective::read_scalar(img, name) == Ok::<Option<Seq<char>>, Error>(
                effective::scalar_after(rs, name),
            )
            &&& effective::read_array(img, name) == Ok::<Map<u64, Seq<char>>, Error>(
                effective::array_after(rs, name),
            )
            &&& effective::read_assoc(img, name) == Ok::<Map<Seq<char>, Seq<char>>, Error>(
                effective::assoc_after(rs, name),
            )
            &&& effective::read_meta(img, name, key) == Ok::<Option<Seq<char>>, Error>(
                effective::meta_after(rs, name, key),
            )
        },
        journal::region_records(img) matches Err(fault) ==> {
            &&& effective::read_scalar(img, name) == Err::<Option<Seq<char>>, Error>(
                Error::InternalError(fault),
            )
            &&& effective::read_array(img, name) == Err::<Map<u64, Seq<char>>, Error>(
                Error::InternalError(fault),
            )
            &&& effective::read_assoc(img, name) == Err::<Map<Seq<char>, Seq<char>>, Error>(
                Error::InternalError(fault),
            )
            &&& effective::read_meta(img, name, key) == Err::<Option<Seq<char>>, Error>(
                Error::InternalError(fault),
            )
        },
{
}

/// A store whose header puts the end of the bytes in use outside the store, or inside the header,
/// cannot be read.
pub proof fn corrupt_header_is_refused(img: Seq<u8>)
    requires
        img.len() >= 48,
    ensures
        ({
            let used = spec_u32_from_le_bytes(img.subrange(12, 16));
            used > img.len() || used < 48 <==> journal::region_records(img) == Err::<
                Seq<Record>,
                Fault,
            >(Fault::CorruptHeader)
        }),
{
    let used = layout::header_of(img).used_bytes as int;
    if 48 <= used <= img.len() {
        lemma_no_header_fault(img, 48, used);
    }
}

proof fn lemma_no_header_fault(img: Seq<u8>, off: int, used: int)
    ensures
        journal::records_from(img, off, used) != Err::<Seq<Record>, Fault>(Fault::CorruptHeader),
    decreases used - off,
{
    if off + 12 <= used && journal::entry_end(img, off) <= used {
        lemma_no_header_fault(img, journal::entry_end(img, off), used);
    }
}

/// The records of a store stand one behind the other from byte 48 on. Fewer than 12 bytes at the end
/// hold none. A record that would pass the bytes in use, or has no known type, is a fault.
pub proof fn records_stand_one_behind_the_other(img: Seq<u8>, off: int, used: int)
    requires
        0 <= off,
        used <= img.len(),
    ensures
        off + 12 > used ==> journal::records_from(img, off, used) == Ok::<Seq<Record>, Fault>(
            seq![],
        ),
        off + 12 <= used ==> {
            let n = spec_u16_from_le_bytes(img.subrange(off + 2, off + 4)) as int;
            let k = spec_u16_from_le_bytes(img.subrange(off + 4, off + 6)) as int;
            let v = spec_u32_from_le_bytes(img.subrange(off + 8, off + 12)) as int;
            let end = off + 12 + n + k + v;
            &&& end > used ==> journal::records_from(img, off, used) == Err::<Seq<Record>, Fault>(
                Fault::CorruptEntry,
            )
            &&& end <= used && (img[off + 1] == 0 || img[off + 1] > 4) ==> journal::records_from(
                img,
                off,
                used,
            ) == Err::<Seq<Record>, Fault>(Fault::UnknownEntryType)
            &&& end <= used && 1 <= img[off + 1] <= 4 ==> match journal::records_from(
                img,
                end,
                used,
            ) {
                Err(fault) => journal::records_from(img, off, used) == Err::<Seq<Record>, Fault>(
                    fault,
                ),
                Ok(rest) => journal::records_from(img, off, used) == Ok::<Seq<Record>, Fault>(
                    seq![
                        (Record {
                            state: img[off],
                            entry_type: if img[off + 1] == 1 {
                                EntryType::Scalar
                            } else if img[off + 1] == 2 {
                                EntryType::ArrayElement
                            } else if img[off + 1] == 3 {
                                EntryType::AssocElement
                            } else {
                                EntryType::Meta
                            },
                            name: img.subrange(off + 12, off + 12 + n),
                            key: img.subrange(off + 12 + n, off + 12 + n + k),
                            val: img.subrange(off + 12 + n + k, end),
                        }),
                    ] + rest,
                ),
            }
        },
        48 <= layout::header_of(img).used_bytes <= img.len() ==> journal::region_records(img)
            == journal::records_from(img, 48, layout::header_of(img).used_bytes as int),
{
}

/// Writes whose texts can be recorded succeed while the store takes no more than half of what its
/// header can record, and the memory behind it may grow to all of that.
pub proof fn short_writes_succeed(img: Seq<u8>, granted: nat, ws: Seq<Write>)
    requires
        journal::sound(img),
        granted >= 0xffff_ffff,
        forall|i: int| #![trigger ws[i]]
            0 <= i < ws.len() ==> encode_utf8(ws[i].name).len() <= 65535 && encode_utf8(
                ws[i].key,
            ).len() <= 65535 && encode_utf8(ws[i].val).len() <= 0xffff_ffff,
        layout::header_of(img).used_bytes + journal::total_len(ws) <= 0x8000_0000,
    ensures
        journal::run(img, granted, ws).1 == Ok::<(), Error>(()),
{
    assert forall|i: int| 0 <= i < ws.len() implies journal::length_fault(
        #[trigger] ws[i],
    ) is None by {}
    journal::fitting_writes_succeed(img, granted, ws);
}

/// The records of writes take 12 bytes each, and as many as their texts have.
pub proof fn writes_take_their_texts_and_twelve_bytes(w: Write, ws: Seq<Write>)
    ensures
        journal::total_len(seq![]) == 0,
        journal::total_len(seq![w] + ws) == 12 + encode_utf8(w.name).len() + encode_utf8(
            w.key,
        ).len() + encode_utf8(w.val).len() + journal::total_len(ws),
{
    assert((seq![w] + ws)[0] == w);
    assert((seq![w] + ws).drop_first() =~= ws);
}

} // verus!
