use std::collections::BTreeMap;

use brush_bridge::error::{Error, Fault};
use brush_bridge::layout::EntryType;
use brush_bridge::name_map::NameMap;
use brush_bridge::shared_memory::SharedRegion;

fn small() -> SharedRegion {
    SharedRegion::create(60).unwrap()
}

fn reopened(region: &SharedRegion) -> SharedRegion {
    SharedRegion::from_bytes(region.bytes().clone(), u64::MAX).unwrap()
}

fn u32_at(region: &SharedRegion, at: usize) -> u32 {
    let b = region.bytes();
    u32::from_le_bytes([b[at], b[at + 1], b[at + 2], b[at + 3]])
}

fn scalar(region: &SharedRegion, name: &str) -> Option<String> {
    region.get_scalar(name).unwrap()
}

fn internal<T: std::fmt::Debug>(r: Result<T, Error>) -> Fault {
    match r.unwrap_err() {
        Error::InternalError(fault) => fault,
        other => panic!("{other:?}"),
    }
}

#[test]
fn scalar_roundtrip() {
    let mut region = SharedRegion::create(1024 * 1024).unwrap();
    region.set_scalar("x", "1").unwrap();
    assert_eq!(region.get_scalar("x").unwrap().as_deref(), Some("1"));
    region.set_scalar("x", "42").unwrap();
    assert_eq!(region.get_scalar("x").unwrap().as_deref(), Some("42"));
    region.unset_name("x").unwrap();
    assert_eq!(region.get_scalar("x").unwrap(), None);
}

#[test]
fn typed_roundtrip() {
    let mut region = SharedRegion::create(1024 * 1024).unwrap();
    let mut arr = BTreeMap::new();
    arr.insert(0, "a".to_string());
    arr.insert(2, "c".to_string());
    region.set_indexed_array("arr", &arr).unwrap();
    assert_eq!(region.get_meta("arr", "type").unwrap().as_deref(), Some("array"));
    assert_eq!(region.get_indexed_array("arr").unwrap(), arr);

    let mut assoc = NameMap::new();
    assoc.insert("k", "v".to_string());
    region.set_assoc_array("cfg", &assoc).unwrap();
    assert_eq!(region.get_meta("cfg", "type").unwrap().as_deref(), Some("assoc"));
    assert_eq!(region.get_assoc_array("cfg").unwrap(), assoc);
}

#[test]
fn sizes_are_checked() {
    assert_eq!(internal(SharedRegion::create(59)), Fault::SizeTooSmall);
    assert_eq!(internal(SharedRegion::create(1 << 32)), Fault::RegionTooLarge);
    assert_eq!(internal(SharedRegion::from_bytes(vec![0; 47], 0)), Fault::RegionTooSmall);
    assert_eq!(SharedRegion::create(60).unwrap().size(), 60);
    assert_eq!(SharedRegion::from_bytes(vec![0; 48], 0).unwrap().size(), 48);
    assert_eq!(Fault::SizeTooSmall.message(), "shared region size too small");
    assert_eq!(Error::InternalError(Fault::RegionTooSmall).message(), "region too small");
}

#[test]
fn header_is_laid_out_in_little_endian() {
    let region = SharedRegion::create(4096).unwrap();
    assert_eq!(&region.bytes()[0..4], b"HSCM");
    assert_eq!(u32_at(&region, 4), 1);
    assert_eq!(u32_at(&region, 8), 4096);
    assert_eq!(u32_at(&region, 12), 48);
    assert!(region.bytes()[16..].iter().all(|b| *b == 0));
}

#[test]
fn entries_are_laid_out_behind_the_header() {
    let mut region = SharedRegion::create(4096).unwrap();
    region.set_meta("ab", "k", "xyz").unwrap();
    assert_eq!(
        &region.bytes()[48..66],
        &[1, 4, 2, 0, 1, 0, 0, 0, 3, 0, 0, 0, b'a', b'b', b'k', b'x', b'y', b'z']
    );
    assert_eq!(u32_at(&region, 12), 66);
    assert_eq!(u32_at(&region, 16), 1);
    assert_eq!(u32_at(&region, 20), 0);
    assert_eq!(u32_at(&region, 24), 1);
    region.unset_name("ab").unwrap();
    assert_eq!(&region.bytes()[66..80], &[0xff, 4, 2, 0, 0, 0, 0, 0, 0, 0, 0, 0, b'a', b'b']);
    assert_eq!(u32_at(&region, 16), 2);
    assert_eq!(u32_at(&region, 20), 1);
    assert_eq!(u32_at(&region, 24), 2);
}

#[test]
fn region_grows_by_doubling_and_keeps_its_entries() {
    let mut region = small();
    region.set_scalar("a", "1").unwrap();
    assert_eq!(region.size(), 4096);
    assert_eq!(u32_at(&region, 8), 4096);
    let long = "x".repeat(10_000);
    region.set_scalar("b", &long).unwrap();
    assert_eq!(region.size(), 16_384);
    assert_eq!(scalar(&region, "a").as_deref(), Some("1"));
    assert_eq!(scalar(&region, "b"), Some(long));
}

#[test]
fn growth_needs_to_be_granted() {
    let fresh = small();
    let mut region = SharedRegion::from_bytes(fresh.bytes().clone(), 60).unwrap();
    assert_eq!(region.set_scalar("a", "1"), Err(Error::GrowthRefused { size: 4096 }));
    assert_eq!(region.bytes(), fresh.bytes());
    let mut granted = SharedRegion::from_bytes(fresh.bytes().clone(), 4096).unwrap();
    granted.set_scalar("a", "1").unwrap();
    assert_eq!(scalar(&granted, "a").as_deref(), Some("1"));
    let before = u32_at(&granted, 16);
    assert_eq!(
        granted.set_scalar("a", &"y".repeat(5000)),
        Err(Error::GrowthRefused { size: 8192 })
    );
    assert_eq!(u32_at(&granted, 16), before + 2);
    assert_eq!(scalar(&granted, "a"), None);
}

#[test]
fn memory_granted_makes_no_difference_to_what_is_written() {
    let fresh = small();
    let mut enough = SharedRegion::from_bytes(fresh.bytes().clone(), 4096).unwrap();
    let mut plenty = fresh.copied();
    enough.set_scalar("a", "1").unwrap();
    plenty.set_scalar("a", "1").unwrap();
    assert_eq!(enough.bytes(), plenty.bytes());
}

#[test]
fn declared_growth_is_noticed() {
    let mut region = small();
    assert_eq!(region.declared_growth(), None);
    region.set_scalar("a", "1").unwrap();
    let cut = SharedRegion::from_bytes(region.bytes()[..60].to_vec(), 60).unwrap();
    assert_eq!(cut.declared_growth(), Some(4096));
}

#[test]
fn initialization_happens_once() {
    let mut raw = SharedRegion::from_bytes(vec![0; 100], 100).unwrap();
    raw.initialize_header();
    assert_eq!(raw.bytes(), SharedRegion::create(100).unwrap().bytes());
    let mut used = SharedRegion::create(4096).unwrap();
    used.set_scalar("a", "1").unwrap();
    let bytes = used.bytes().clone();
    used.initialize_header();
    assert_eq!(used.bytes(), &bytes);
}

#[test]
fn lengths_are_checked() {
    let mut region = small();
    let long = "n".repeat(65_536);
    assert_eq!(internal(region.set_scalar(&long, "1")), Fault::NameTooLong);
    assert_eq!(internal(region.unset_name(&long)), Fault::NameTooLong);
    assert_eq!(internal(region.set_meta("n", &long, "1")), Fault::KeyTooLong);
    assert_eq!(internal(region.set_meta(&long, &long, "1")), Fault::NameTooLong);
    let fits = "n".repeat(65_535);
    region.set_scalar(&fits, "1").unwrap();
    assert_eq!(scalar(&region, &fits).as_deref(), Some("1"));
}

#[test]
fn array_with_a_key_too_long_stops_there() {
    let mut region = small();
    let mut assoc = NameMap::new();
    assoc.insert("a", "1".to_string());
    assoc.insert(&"b".repeat(70_000), "2".to_string());
    assoc.insert("c", "3".to_string());
    assert_eq!(internal(region.set_assoc_array("m", &assoc)), Fault::KeyTooLong);
    let stored = region.get_assoc_array("m").unwrap();
    assert_eq!(stored.len(), 1);
    assert_eq!(stored.get("a").map(|s| s.as_str()), Some("1"));
}

#[test]
fn setting_drops_what_was_there_before() {
    let mut region = small();
    let mut arr = BTreeMap::new();
    arr.insert(3, "x".to_string());
    region.set_indexed_array("v", &arr).unwrap();
    region.set_scalar("v", "s").unwrap();
    assert!(region.get_indexed_array("v").unwrap().is_empty());
    assert_eq!(region.get_meta("v", "type").unwrap().as_deref(), Some("scalar"));
    region.set_indexed_array("v", &BTreeMap::new()).unwrap();
    assert_eq!(scalar(&region, "v"), None);
    assert_eq!(region.get_meta("v", "type").unwrap().as_deref(), Some("array"));
    region.unset_name("v").unwrap();
    assert_eq!(region.get_meta("v", "type").unwrap(), None);
}

#[test]
fn setting_drops_other_metadata() {
    let mut region = small();
    region.set_meta("v", "note", "n").unwrap();
    region.set_scalar("v", "s").unwrap();
    assert_eq!(region.get_meta("v", "note").unwrap(), None);
    region.set_meta("v", "note", "n").unwrap();
    region.set_indexed_array("v", &BTreeMap::new()).unwrap();
    assert_eq!(region.get_meta("v", "note").unwrap(), None);
    region.set_meta("v", "note", "n").unwrap();
    region.set_assoc_array("v", &NameMap::new()).unwrap();
    assert_eq!(region.get_meta("v", "note").unwrap(), None);
}

#[test]
fn metadata_is_kept_by_key() {
    let mut region = small();
    region.set_scalar("n", "1").unwrap();
    region.set_meta("n", "type", "integer").unwrap();
    region.set_meta("n", "note", "é").unwrap();
    assert_eq!(region.get_meta("n", "type").unwrap().as_deref(), Some("integer"));
    assert_eq!(region.get_meta("n", "note").unwrap().as_deref(), Some("é"));
    assert_eq!(region.get_meta("n", "other").unwrap(), None);
    assert_eq!(scalar(&region, "n").as_deref(), Some("1"));
}

#[test]
fn writers_of_distinct_names_do_not_disturb_each_other() {
    let mut bytes = small().bytes().clone();
    for round in 0..20 {
        for worker in 0..8 {
            let mut region = SharedRegion::from_bytes(bytes, u64::MAX).unwrap();
            region.set_scalar(&format!("k{worker}"), &round.to_string()).unwrap();
            bytes = region.bytes().clone();
        }
    }
    let region = SharedRegion::from_bytes(bytes, u64::MAX).unwrap();
    for worker in 0..8 {
        assert_eq!(scalar(&region, &format!("k{worker}")).as_deref(), Some("19"));
    }
}

#[test]
fn store_survives_being_handed_over_as_bytes() {
    let mut region = small();
    region.set_scalar("k", "parent").unwrap();
    let mut child = reopened(&region);
    assert_eq!(scalar(&child, "k").as_deref(), Some("parent"));
    child.set_scalar("k", "child").unwrap();
    assert_eq!(scalar(&reopened(&child), "k").as_deref(), Some("child"));
}

#[test]
fn array_indices_are_written_in_decimal() {
    let mut region = small();
    let mut arr = BTreeMap::new();
    for (k, v) in [(0u64, "a"), (10, "b"), (u64::MAX, "c")] {
        arr.insert(k, v.to_string());
    }
    region.set_indexed_array("v", &arr).unwrap();
    assert_eq!(region.get_indexed_array("v").unwrap(), arr);
    let text = String::from_utf8_lossy(region.bytes()).into_owned();
    assert!(text.contains("v18446744073709551615c"));
}

fn with_byte(region: &SharedRegion, at: usize, value: u8) -> SharedRegion {
    let mut bytes = region.bytes().clone();
    bytes[at] = value;
    SharedRegion::from_bytes(bytes, u64::MAX).unwrap()
}

#[test]
fn corruption_is_reported() {
    let mut region = SharedRegion::create(4096).unwrap();
    region.set_meta("ab", "k", "xyz").unwrap();
    assert_eq!(internal(with_byte(&region, 12, 47).get_scalar("ab")), Fault::CorruptHeader);
    assert_eq!(internal(with_byte(&region, 14, 1).get_scalar("ab")), Fault::CorruptHeader);
    assert_eq!(internal(with_byte(&region, 56, 99).get_scalar("ab")), Fault::CorruptEntry);
    assert_eq!(internal(with_byte(&region, 49, 5).get_meta("ab", "k")), Fault::UnknownEntryType);
    assert_eq!(
        internal(with_byte(&region, 49, 0).get_indexed_array("ab")),
        Fault::UnknownEntryType
    );
    assert_eq!(
        internal(with_byte(&region, 12, 10).get_assoc_array("ab")),
        Fault::CorruptHeader
    );
    let cut = with_byte(&region, 12, 59);
    assert_eq!(cut.get_meta("ab", "k").unwrap(), None);
}

#[test]
fn malformed_text_is_read_with_replacement() {
    let mut region = SharedRegion::create(4096).unwrap();
    region.set_scalar("x", "ab").unwrap();
    let used = u32_at(&region, 12) as usize;
    let broken = with_byte(&region, used - 1, 0xff);
    assert_eq!(scalar(&broken, "x").as_deref(), Some("a\u{fffd}"));
}

#[test]
fn array_keys_that_are_no_numbers_are_left_out() {
    let mut region = SharedRegion::create(4096).unwrap();
    let mut arr = BTreeMap::new();
    arr.insert(7, "a".to_string());
    region.set_indexed_array("v", &arr).unwrap();
    let used = u32_at(&region, 12) as usize;
    assert_eq!(region.bytes()[used - 2], b'7');
    let broken = with_byte(&region, used - 2, b'x');
    assert!(broken.get_indexed_array("v").unwrap().is_empty());
}

#[test]
fn entry_types_have_their_bytes() {
    let all = [
        (EntryType::Scalar, 1),
        (EntryType::ArrayElement, 2),
        (EntryType::AssocElement, 3),
        (EntryType::Meta, 4),
    ];
    for (t, byte) in all {
        assert_eq!(t.to_byte(), byte);
        assert_eq!(EntryType::from_byte(byte), Some(t));
    }
    assert_eq!(EntryType::from_byte(0), None);
    assert_eq!(EntryType::from_byte(5), None);
}

#[test]
fn name_map_keeps_names_in_order() {
    let mut m = NameMap::new();
    for name in ["b", "a", "é", "ab", "", "b"] {
        m.insert(name, name.to_string());
    }
    let names: Vec<&str> = (0..m.len()).map(|i| m.name_at(i).as_str()).collect();
    assert_eq!(names, ["", "a", "ab", "b", "é"]);
    assert_eq!(m.value_at(2), "ab");
    assert!(m.contains("é"));
    assert_eq!(m.remove("ab").as_deref(), Some("ab"));
    assert_eq!(m.remove("ab"), None);
    assert_eq!(m.get("ab"), None);
    assert_eq!(m.clone(), m);
    assert_eq!(m.len(), 4);
}
