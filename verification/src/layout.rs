//! The byte layout of a shared region: its header and its entries.
//!
//! A region starts with a header of 48 bytes, followed by entries one after the other. Numbers
//! are stored least significant byte first. An entry is a header of 12 bytes (state, type, name
//! length, key length, two unused bytes, value length), the name, the key and the value.

use vstd::bytes::*;
use vstd::prelude::*;
use vstd::slice::*;


verus! {

/// The number that marks an initialized region.
pub const SHARED_MAGIC: u32 = 0x4D43_5348;

/// The version of the layout.
pub const SHARED_VERSION: u32 = 1;

/// The state of an entry that holds a value.
pub const ENTRY_STATE_LIVE: u8 = 0x01;

/// The state of an entry that drops everything recorded before it for its name.
pub const ENTRY_STATE_TOMBSTONE: u8 = 0xFF;

/// Entry type identifiers in the shared region.
#[derive(Clone, Copy, Debug, PartialEq, Eq, Structural)]
pub enum EntryType {
    /// Scalar variable value.
    Scalar,
    /// Indexed array element.
    ArrayElement,
    /// Associative array element.
    AssocElement,
    /// Metadata entry (e.g. type tags).
    Meta,
}

impl EntryType {
    /// The byte that stands for this type.
    pub open spec fn byte(self) -> u8 {
        match self {
            EntryType::Scalar => 1,
            EntryType::ArrayElement => 2,
            EntryType::AssocElement => 3,
            EntryType::Meta => 4,
        }
    }

    /// The type that a byte stands for.
    pub open spec fn of_byte(v: u8) -> Option<EntryType> {
        if v == 1 {
            Some(EntryType::Scalar)
        } else if v == 2 {
            Some(EntryType::ArrayElement)
        } else if v == 3 {
            Some(EntryType::AssocElement)
        } else if v == 4 {
            Some(EntryType::Meta)
        } else {
            None
        }
    }

    /// The byte that stands for this type.
    pub fn to_byte(&self) -> (r: u8)
        ensures
            r == self.byte(),
    {
        match self {
            EntryType::Scalar => 1,
            EntryType::ArrayElement => 2,
            EntryType::AssocElement => 3,
            EntryType::Meta => 4,
        }
    }

    /// The type that `v` stands for.
    pub fn from_byte(v: u8) -> (r: Option<EntryType>)
        ensures
            r == EntryType::of_byte(v),
    {
        if v == 1 {
            Some(EntryType::Scalar)
        } else if v == 2 {
            Some(EntryType::ArrayElement)
        } else if v == 3 {
            Some(EntryType::AssocElement)
        } else if v == 4 {
            Some(EntryType::Meta)
        } else {
            None
        }
    }
}

/// The byte of an entry type stands for that type, and no other byte does.
pub proof fn entry_type_byte_round_trip(t: EntryType, v: u8)
    ensures
        EntryType::of_byte(t.byte()) == Some(t),
        EntryType::of_byte(v) == Some(t) <==> v == t.byte(),
{
}

/// The header of a region.
#[derive(Clone, Copy, Debug, PartialEq, Eq, Structural)]
pub struct RegionHeader {
    /// `SHARED_MAGIC` in an initialized region.
    pub magic: u32,
    /// The version of the layout.
    pub version: u32,
    /// The size of the region, in bytes.
    pub total_size: u32,
    /// The number of bytes in use, this header included.
    pub used_bytes: u32,
    /// How many entries have been appended.
    pub entry_count: u32,
    /// How many of them are tombstones.
    pub tombstone_count: u32,
    /// How often the region has been changed.
    pub generation: u64,
    /// Kept for later use.
    pub reserved: u128,
}

/// The bytes of a region header.
pub open spec fn header_bytes(h: RegionHeader) -> Seq<u8> {
    spec_u32_to_le_bytes(h.magic) + spec_u32_to_le_bytes(h.version) + spec_u32_to_le_bytes(
        h.total_size,
    ) + spec_u32_to_le_bytes(h.used_bytes) + spec_u32_to_le_bytes(h.entry_count)
        + spec_u32_to_le_bytes(h.tombstone_count) + spec_u64_to_le_bytes(h.generation)
        + spec_u128_to_le_bytes(h.reserved)
}

/// The header that the first 48 bytes of an image hold.
pub open spec fn header_of(img: Seq<u8>) -> RegionHeader {
    RegionHeader {
        magic: spec_u32_from_le_bytes(img.subrange(0, 4)),
        version: spec_u32_from_le_bytes(img.subrange(4, 8)),
        total_size: spec_u32_from_le_bytes(img.subrange(8, 12)),
        used_bytes: spec_u32_from_le_bytes(img.subrange(12, 16)),
        entry_count: spec_u32_from_le_bytes(img.subrange(16, 20)),
        tombstone_count: spec_u32_from_le_bytes(img.subrange(20, 24)),
        generation: spec_u64_from_le_bytes(img.subrange(24, 32)),
        reserved: spec_u128_from_le_bytes(img.subrange(32, 48)),
    }
}

/// A header takes 48 bytes, and an image that starts with its bytes holds that header.
pub proof fn header_round_trip(h: RegionHeader, img: Seq<u8>)
    requires
        img.len() >= 48,
        img.take(48) == header_bytes(h),
    ensures
        header_of(img) == h,
{
    lemma_auto_spec_u32_to_from_le_bytes();
    lemma_auto_spec_u64_to_from_le_bytes();
    lemma_auto_spec_u128_to_from_le_bytes();
    let b = header_bytes(h);
    assert(img.subrange(0, 4) =~= b.subrange(0, 4));
    assert(img.subrange(4, 8) =~= b.subrange(4, 8));
    assert(img.subrange(8, 12) =~= b.subrange(8, 12));
    assert(img.subrange(12, 16) =~= b.subrange(12, 16));
    assert(img.subrange(16, 20) =~= b.subrange(16, 20));
    assert(img.subrange(20, 24) =~= b.subrange(20, 24));
    assert(img.subrange(24, 32) =~= b.subrange(24, 32));
    assert(img.subrange(32, 48) =~= b.subrange(32, 48));
    assert(b.subrange(0, 4) =~= spec_u32_to_le_bytes(h.magic));
    assert(b.subrange(4, 8) =~= spec_u32_to_le_bytes(h.version));
    assert(b.subrange(8, 12) =~= spec_u32_to_le_bytes(h.total_size));
    assert(b.subrange(12, 16) =~= spec_u32_to_le_bytes(h.used_bytes));
    assert(b.subrange(16, 20) =~= spec_u32_to_le_bytes(h.entry_count));
    assert(b.subrange(20, 24) =~= spec_u32_to_le_bytes(h.tombstone_count));
    assert(b.subrange(24, 32) =~= spec_u64_to_le_bytes(h.generation));
    assert(b.subrange(32, 48) =~= spec_u128_to_le_bytes(h.reserved));
}

/// The length of a header's bytes.
pub proof fn lemma_header_len(h: RegionHeader)
    ensures
        header_bytes(h).len() == 48,
{
    lemma_auto_spec_u32_to_from_le_bytes();
    lemma_auto_spec_u64_to_from_le_bytes();
    lemma_auto_spec_u128_to_from_le_bytes();
}

/// The header of one entry.
#[derive(Clone, Copy, Debug, PartialEq, Eq, Structural)]
pub struct EntryHeader {
    /// Live or tombstone.
    pub state: u8,
    /// The byte of the entry's type.
    pub entry_type: u8,
    /// The length of the name, in bytes.
    pub name_len: u16,
    /// The length of the key, in bytes.
    pub key_len: u16,
    /// The length of the value, in bytes.
    pub val_len: u32,
}

/// The bytes of an entry header.
pub open spec fn entry_header_bytes(e: EntryHeader) -> Seq<u8> {
    seq![e.state, e.entry_type] + spec_u16_to_le_bytes(e.name_len) + spec_u16_to_le_bytes(e.key_len)
        + seq![0u8, 0u8] + spec_u32_to_le_bytes(e.val_len)
}

/// The entry header stored at `off`.
pub open spec fn entry_header_at(img: Seq<u8>, off: int) -> EntryHeader {
    EntryHeader {
        state: img[off],
        entry_type: img[off + 1],
        name_len: spec_u16_from_le_bytes(img.subrange(off + 2, off + 4)),
        key_len: spec_u16_from_le_bytes(img.subrange(off + 4, off + 6)),
        val_len: spec_u32_from_le_bytes(img.subrange(off + 8, off + 12)),
    }
}

/// The length of an entry header's bytes.
pub proof fn lemma_entry_header_len(e: EntryHeader)
    ensures
        entry_header_bytes(e).len() == 12,
{
    lemma_auto_spec_u16_to_from_le_bytes();
    lemma_auto_spec_u32_to_from_le_bytes();
}

/// An entry header stored at an offset is read back from there.
pub proof fn entry_header_round_trip(e: EntryHeader, img: Seq<u8>, off: int)
    requires
        0 <= off,
        off + 12 <= img.len(),
        img.subrange(off, off + 12) == entry_header_bytes(e),
    ensures
        entry_header_at(img, off) == e,
{
    lemma_auto_spec_u16_to_from_le_bytes();
    lemma_auto_spec_u32_to_from_le_bytes();
    let b = entry_header_bytes(e);
    assert(img[off] == img.subrange(off, off + 12)[0]);
    assert(img[off + 1] == img.subrange(off, off + 12)[1]);
    assert(img.subrange(off + 2, off + 4) =~= b.subrange(2, 4));
    assert(img.subrange(off + 4, off + 6) =~= b.subrange(4, 6));
    assert(img.subrange(off + 8, off + 12) =~= b.subrange(8, 12));
    assert(b.subrange(2, 4) =~= spec_u16_to_le_bytes(e.name_len));
    assert(b.subrange(4, 6) =~= spec_u16_to_le_bytes(e.key_len));
    assert(b.subrange(8, 12) =~= spec_u32_to_le_bytes(e.val_len));
}

/// `img` with `src` stored over the bytes from `at` on.
pub open spec fn overwrite(img: Seq<u8>, at: int, src: Seq<u8>) -> Seq<u8> {
    img.take(at) + src + img.skip(at + src.len())
}

/// Stores `src` over the bytes of `bytes` from `at` on.
pub fn store(bytes: &mut Vec<u8>, at: usize, src: &[u8])
    requires
        at + src@.len() <= old(bytes)@.len(),
    ensures
        final(bytes)@ == overwrite(old(bytes)@, at as int, src@),
{
    let ghost img = bytes@;
    let mut i: usize = 0;
    while i < src.len()
        invariant
            i <= src@.len(),
            at + src@.len() <= bytes.len(),
            bytes@.len() == img.len(),
            forall|j: int|
                0 <= j < img.len() ==> #[trigger] bytes@[j] == if at <= j < at + i {
                    src@[j - at]
                } else {
                    img[j]
                },
        decreases src@.len() - i,
    {
        bytes.set(at + i, src[i]);
        i += 1;
    }
    assert(bytes@ =~= overwrite(img, at as int, src@));
}

/// Reads the region header from the start of `bytes`.
pub fn load_header(bytes: &Vec<u8>) -> (h: RegionHeader)
    requires
        bytes@.len() >= 48,
    ensures
        h == header_of(bytes@),
{
    let b = bytes.as_slice();
    RegionHeader {
        magic: u32_from_le_bytes(slice_subrange(b, 0, 4)),
        version: u32_from_le_bytes(slice_subrange(b, 4, 8)),
        total_size: u32_from_le_bytes(slice_subrange(b, 8, 12)),
        used_bytes: u32_from_le_bytes(slice_subrange(b, 12, 16)),
        entry_count: u32_from_le_bytes(slice_subrange(b, 16, 20)),
        tombstone_count: u32_from_le_bytes(slice_subrange(b, 20, 24)),
        generation: u64_from_le_bytes(slice_subrange(b, 24, 32)),
        reserved: u128_from_le_bytes(slice_subrange(b, 32, 48)),
    }
}

/// The bytes of a region header.
pub fn encode_header(h: &RegionHeader) -> (r: Vec<u8>)
    ensures
        r@ == header_bytes(*h),
        r@.len() == 48,
{
    let mut r = u32_to_le_bytes(h.magic);
    let mut version = u32_to_le_bytes(h.version);
    r.append(&mut version);
    let mut total_size = u32_to_le_bytes(h.total_size);
    r.append(&mut total_size);
    let mut used_bytes = u32_to_le_bytes(h.used_bytes);
    r.append(&mut used_bytes);
    let mut entry_count = u32_to_le_bytes(h.entry_count);
    r.append(&mut entry_count);
    let mut tombstone_count = u32_to_le_bytes(h.tombstone_count);
    r.append(&mut tombstone_count);
    let mut generation = u64_to_le_bytes(h.generation);
    r.append(&mut generation);
    let mut reserved = u128_to_le_bytes(h.reserved);
    r.append(&mut reserved);
    proof {
        lemma_header_len(*h);
    }
    r
}

/// Reads the entry header stored at `off`.
pub fn load_entry_header(bytes: &Vec<u8>, off: usize) -> (e: EntryHeader)
    requires
        off + 12 <= bytes@.len(),
    ensures
        e == entry_header_at(bytes@, off as int),
{
    let b = bytes.as_slice();
    assert(off + 12 <= bytes.len());
    EntryHeader {
        state: bytes[off],
        entry_type: bytes[off + 1],
        name_len: u16_from_le_bytes(slice_subrange(b, off + 2, off + 4)),
        key_len: u16_from_le_bytes(slice_subrange(b, off + 4, off + 6)),
        val_len: u32_from_le_bytes(slice_subrange(b, off + 8, off + 12)),
    }
}

/// The bytes of an entry header.
pub fn encode_entry_header(e: &EntryHeader) -> (r: Vec<u8>)
    ensures
        r@ == entry_header_bytes(*e),
        r@.len() == 12,
{
    let mut r: Vec<u8> = Vec::new();
    r.push(e.state);
    r.push(e.entry_type);
    let mut name_len = u16_to_le_bytes(e.name_len);
    r.append(&mut name_len);
    let mut key_len = u16_to_le_bytes(e.key_len);
    r.append(&mut key_len);
    r.push(0);
    r.push(0);
    let mut val_len = u32_to_le_bytes(e.val_len);
    r.append(&mut val_len);
    proof {
        lemma_entry_header_len(*e);
        assert(r@ =~= entry_header_bytes(*e));
    }
    r
}

} // verus!
