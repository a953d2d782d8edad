//! The value that the records of a region give a name, and how writes change it.
//!
//! A record counts for the name that it stores. A tombstone drops what earlier records of its name
//! gave; a live record gives its value to the name, or to one key of it.

use vstd::prelude::*;

use crate::error::{Error, Fault};
use crate::journal;
use crate::journal::{Record, Write};
use crate::layout::{EntryType, ENTRY_STATE_LIVE, ENTRY_STATE_TOMBSTONE};
use crate::text;

verus! {

/// The scalar value that `rs` give `name`.
pub open spec fn scalar_after(rs: Seq<Record>, name: Seq<char>) -> Option<Seq<char>>
    decreases rs.len(),
{
    if rs.len() == 0 {
        None
    } else {
        let r = rs.last();
        let before = scalar_after(rs.drop_last(), name);
        if text::lossy_text(r.name) != name {
            before
        } else if r.state == ENTRY_STATE_TOMBSTONE {
            None
        } else if r.entry_type == EntryType::Scalar {
            Some(text::lossy_text(r.val))
        } else {
            before
        }
    }
}

/// The indexed array that `rs` give `name`. Elements under a key that is no number are left out.
pub open spec fn array_after(rs: Seq<Record>, name: Seq<char>) -> Map<u64, Seq<char>>
    decreases rs.len(),
{
    if rs.len() == 0 {
        Map::empty()
    } else {
        let r = rs.last();
        let before = array_after(rs.drop_last(), name);
        if text::lossy_text(r.name) != name {
            before
        } else if r.state == ENTRY_STATE_TOMBSTONE {
            Map::empty()
        } else if r.entry_type == EntryType::ArrayElement {
            match text::parsed_number(text::lossy_text(r.key), u64::MAX as nat) {
                Some(index) => before.insert(index as u64, text::lossy_text(r.val)),
                None => before,
            }
        } else {
            before
        }
    }
}

/// The associative array that `rs` give `name`.
pub open spec fn assoc_after(rs: Seq<Record>, name: Seq<char>) -> Map<Seq<char>, Seq<char>>
    decreases rs.len(),
{
    if rs.len() == 0 {
        Map::empty()
    } else {
        let r = rs.last();
        let before = assoc_after(rs.drop_last(), name);
        if text::lossy_text(r.name) != name {
            before
        } else if r.state == ENTRY_STATE_TOMBSTONE {
            Map::empty()
        } else if r.entry_type == EntryType::AssocElement {
            before.insert(text::lossy_text(r.key), text::lossy_text(r.val))
        } else {
            before
        }
    }
}

/// The metadata that `rs` give `name` under `key`.
pub open spec fn meta_after(rs: Seq<Record>, name: Seq<char>, key: Seq<char>) -> Option<Seq<char>>
    decreases rs.len(),
{
    if rs.len() == 0 {
        None
    } else {
        let r = rs.last();
        let before = meta_after(rs.drop_last(), name, key);
        if text::lossy_text(r.name) != name {
            before
        } else if r.state == ENTRY_STATE_TOMBSTONE {
            None
        } else if r.entry_type == EntryType::Meta && text::lossy_text(r.key) == key {
            Some(text::lossy_text(r.val))
        } else {
            before
        }
    }
}

/// What reading the scalar `name` from an image gives.
pub open spec fn read_scalar(img: Seq<u8>, name: Seq<char>) -> Result<Option<Seq<char>>, Error> {
    match journal::region_records(img) {
        Ok(rs) => Ok(scalar_after(rs, name)),
        Err(fault) => Err(Error::InternalError(fault)),
    }
}

/// What reading the indexed array `name` from an image gives.
pub open spec fn read_array(img: Seq<u8>, name: Seq<char>) -> Result<Map<u64, Seq<char>>, Error> {
    match journal::region_records(img) {
        Ok(rs) => Ok(array_after(rs, name)),
        Err(fault) => Err(Error::InternalError(fault)),
    }
}

/// What reading the associative array `name` from an image gives.
pub open spec fn read_assoc(img: Seq<u8>, name: Seq<char>) -> Result<
    Map<Seq<char>, Seq<char>>,
    Error,
> {
    match journal::region_records(img) {
        Ok(rs) => Ok(assoc_after(rs, name)),
        Err(fault) => Err(Error::InternalError(fault)),
    }
}

/// What reading the metadata of `name` under `key` from an image gives.
pub open spec fn read_meta(img: Seq<u8>, name: Seq<char>, key: Seq<char>) -> Result<
    Option<Seq<char>>,
    Error,
> {
    match journal::region_records(img) {
        Ok(rs) => Ok(meta_after(rs, name, key)),
        Err(fault) => Err(Error::InternalError(fault)),
    }
}

/// The write that drops what is recorded for `name`.
pub open spec fn tombstone_write(name: Seq<char>) -> Write {
    Write {
        state: ENTRY_STATE_TOMBSTONE,
        entry_type: EntryType::Meta,
        name,
        key: seq![],
        val: seq![],
    }
}

/// The write that records `val` for `name` under `key`.
pub open spec fn live_write(
    entry_type: EntryType,
    name: Seq<char>,
    key: Seq<char>,
    val: Seq<char>,
) -> Write {
    Write { state: ENTRY_STATE_LIVE, entry_type, name, key, val }
}

/// The metadata key under which the type of a variable is recorded.
pub open spec fn type_key() -> Seq<char> {
    "type"@
}

/// The writes that set a scalar.
pub open spec fn scalar_writes(name: Seq<char>, val: Seq<char>) -> Seq<Write> {
    seq![
        tombstone_write(name),
        live_write(EntryType::Meta, name, type_key(), "scalar"@),
        live_write(EntryType::Scalar, name, seq![], val),
    ]
}

/// The writes that unset a name.
pub open spec fn unset_writes(name: Seq<char>) -> Seq<Write> {
    seq![tombstone_write(name)]
}

/// The writes that set metadata.
pub open spec fn meta_writes(name: Seq<char>, key: Seq<char>, val: Seq<char>) -> Seq<Write> {
    seq![live_write(EntryType::Meta, name, key, val)]
}

/// The element writes of an indexed array, in the order of `entries`.
pub open spec fn array_elements(name: Seq<char>, entries: Seq<(u64, Seq<char>)>) -> Seq<Write> {
    entries.map_values(
        |e: (u64, Seq<char>)|
            live_write(EntryType::ArrayElement, name, text::decimal_text(e.0 as nat), e.1),
    )
}

/// The writes that set an indexed array: elements by increasing index.
pub open spec fn array_writes(name: Seq<char>, values: Map<u64, Seq<char>>) -> Seq<Write> {
    seq![tombstone_write(name), live_write(EntryType::Meta, name, type_key(), "array"@)]
        + array_elements(name, listing(values))
}

/// The element writes of an associative array, in the order of `entries`.
pub open spec fn assoc_elements(
    name: Seq<char>,
    entries: Seq<(Seq<char>, Seq<char>)>,
) -> Seq<Write> {
    entries.map_values(
        |e: (Seq<char>, Seq<char>)| live_write(EntryType::AssocElement, name, e.0, e.1),
    )
}

/// The writes that set an associative array: elements in the order of their keys.
pub open spec fn assoc_writes(name: Seq<char>, values: Map<Seq<char>, Seq<char>>) -> Seq<Write> {
    seq![tombstone_write(name), live_write(EntryType::Meta, name, type_key(), "assoc"@)]
        + assoc_elements(name, text_listing(values))
}

/// The entries of `m` with keys below `n`, by increasing key.
pub open spec fn entries_below(m: Map<u64, Seq<char>>, n: nat) -> Seq<(u64, Seq<char>)>
    decreases n,
{
    if n == 0 {
        seq![]
    } else {
        let k = (n - 1) as u64;
        let below = entries_below(m, (n - 1) as nat);
        if m.contains_key(k) {
            below.push((k, m[k]))
        } else {
            below
        }
    }
}

/// The entries of `m`, by increasing key.
pub open spec fn listing(m: Map<u64, Seq<char>>) -> Seq<(u64, Seq<char>)> {
    entries_below(m, 0x1_0000_0000_0000_0000)
}

/// Whether `s` holds the entries of `m`, each once, by increasing key.
pub open spec fn lists(s: Seq<(u64, Seq<char>)>, m: Map<u64, Seq<char>>) -> bool {
    &&& forall|i: int, j: int| 0 <= i < j < s.len() ==> (#[trigger] s[i]).0 < (#[trigger] s[j]).0
    &&& forall|i: int|
        0 <= i < s.len() ==> m.contains_key((#[trigger] s[i]).0) && m[s[i].0] == s[i].1
    &&& forall|k: u64| #[trigger]
        m.contains_key(k) ==> exists|i: int| 0 <= i < s.len() && (#[trigger] s[i]).0 == k
}

proof fn lemma_entries_below(m: Map<u64, Seq<char>>, n: nat)
    requires
        n <= 0x1_0000_0000_0000_0000,
    ensures
        ({
            let s = entries_below(m, n);
            &&& forall|i: int, j: int|
                0 <= i < j < s.len() ==> (#[trigger] s[i]).0 < (#[trigger] s[j]).0
            &&& forall|i: int|
                0 <= i < s.len() ==> m.contains_key((#[trigger] s[i]).0) && m[s[i].0] == s[i].1
                    && s[i].0 < n
            &&& forall|k: u64|
                k < n && #[trigger] m.contains_key(k) ==> exists|i: int|
                    0 <= i < s.len() && (#[trigger] s[i]).0 == k
        }),
    decreases n,
{
    if n > 0 {
        lemma_entries_below(m, (n - 1) as nat);
        let s = entries_below(m, n);
        let below = entries_below(m, (n - 1) as nat);
        let last = (n - 1) as u64;
        assert forall|k: u64| k < n && #[trigger] m.contains_key(k) implies exists|i: int|
            0 <= i < s.len() && (#[trigger] s[i]).0 == k by {
            if k == last {
                assert(s[s.len() - 1].0 == k);
            } else {
                let i = choose|i: int| 0 <= i < below.len() && (#[trigger] below[i]).0 == k;
                assert(s[i] == below[i]);
            }
        }
    }
}

/// `listing` lists every map.
pub proof fn listing_lists(m: Map<u64, Seq<char>>)
    ensures
        lists(listing(m), m),
{
    lemma_entries_below(m, 0x1_0000_0000_0000_0000);
}

/// A map is listed in one way only.
pub proof fn listing_is_unique(s: Seq<(u64, Seq<char>)>, m: Map<u64, Seq<char>>)
    requires
        lists(s, m),
    ensures
        s == listing(m),
{
    listing_lists(m);
    lemma_lists_unique(s, listing(m), m);
}

proof fn lemma_lists_unique(
    s: Seq<(u64, Seq<char>)>,
    t: Seq<(u64, Seq<char>)>,
    m: Map<u64, Seq<char>>,
)
    requires
        lists(s, m),
        lists(t, m),
    ensures
        s == t,
    decreases s.len(),
{
    if s.len() == 0 {
        if t.len() > 0 {
            assert(m.contains_key(t[0].0));
        }
        assert(s =~= t);
    } else {
        let a = s.last();
        assert(m.contains_key(s[s.len() - 1].0));
        let j = choose|j: int| 0 <= j < t.len() && (#[trigger] t[j]).0 == a.0;
        let b = t.last();
        assert(m.contains_key(t[t.len() - 1].0));
        let i = choose|i: int| 0 <= i < s.len() && (#[trigger] s[i]).0 == b.0;
        assert(a.0 == b.0);
        let rest = m.remove(a.0);
        lemma_lists_drop_last(s, m);
        lemma_lists_drop_last(t, m);
        lemma_lists_unique(s.drop_last(), t.drop_last(), rest);
        assert(s =~= s.drop_last().push(a));
        assert(t =~= t.drop_last().push(b));
    }
}

proof fn lemma_lists_drop_last(s: Seq<(u64, Seq<char>)>, m: Map<u64, Seq<char>>)
    requires
        lists(s, m),
        s.len() > 0,
    ensures
        lists(s.drop_last(), m.remove(s.last().0)),
{
    let rest = m.remove(s.last().0);
    let d = s.drop_last();
    assert forall|k: u64| #[trigger] rest.contains_key(k) implies exists|i: int|
        0 <= i < d.len() && (#[trigger] d[i]).0 == k by {
        assert(m.contains_key(k));
        let i = choose|i: int| 0 <= i < s.len() && (#[trigger] s[i]).0 == k;
        assert(d[i] == s[i]);
    }
}

/// Whether `s` holds the entries of `m`, each once, in the order of strings.
pub open spec fn lists_text(
    s: Seq<(Seq<char>, Seq<char>)>,
    m: Map<Seq<char>, Seq<char>>,
) -> bool {
    &&& forall|i: int, j: int|
        0 <= i < j < s.len() ==> text::text_before((#[trigger] s[i]).0, (#[trigger] s[j]).0)
    &&& forall|i: int|
        0 <= i < s.len() ==> m.contains_key((#[trigger] s[i]).0) && m[s[i].0] == s[i].1
    &&& forall|k: Seq<char>| #[trigger]
        m.contains_key(k) ==> exists|i: int| 0 <= i < s.len() && (#[trigger] s[i]).0 == k
}

/// The entries of `m`, in the order of strings.
pub open spec fn text_listing(m: Map<Seq<char>, Seq<char>>) -> Seq<(Seq<char>, Seq<char>)> {
    choose|s: Seq<(Seq<char>, Seq<char>)>| #[trigger] lists_text(s, m)
}

/// A map of texts is listed in one way only.
pub proof fn text_listing_is_unique(
    s: Seq<(Seq<char>, Seq<char>)>,
    m: Map<Seq<char>, Seq<char>>,
)
    requires
        lists_text(s, m),
    ensures
        s == text_listing(m),
{
    lemma_lists_text_unique(s, text_listing(m), m);
}

proof fn lemma_lists_text_unique(
    s: Seq<(Seq<char>, Seq<char>)>,
    t: Seq<(Seq<char>, Seq<char>)>,
    m: Map<Seq<char>, Seq<char>>,
)
    requires
        lists_text(s, m),
        lists_text(t, m),
    ensures
        s == t,
    decreases s.len(),
{
    if s.len() == 0 {
        if t.len() > 0 {
            assert(m.contains_key(t[0].0));
        }
        assert(s =~= t);
    } else {
        let a = s.last();
        assert(m.contains_key(s[s.len() - 1].0));
        let j = choose|j: int| 0 <= j < t.len() && (#[trigger] t[j]).0 == a.0;
        let b = t.last();
        assert(m.contains_key(t[t.len() - 1].0));
        let i = choose|i: int| 0 <= i < s.len() && (#[trigger] s[i]).0 == b.0;
        if a.0 != b.0 {
            assert(text::text_before(t[j].0, t[t.len() - 1].0));
            assert(text::text_before(s[i].0, s[s.len() - 1].0));
            text::text_before_is_total_order(a.0, b.0, a.0);
        }
        lemma_lists_text_drop_last(s, m);
        lemma_lists_text_drop_last(t, m);
        lemma_lists_text_unique(s.drop_last(), t.drop_last(), m.remove(a.0));
        assert(s =~= s.drop_last().push(a));
        assert(t =~= t.drop_last().push(b));
    }
}

/// `text_listing` lists every finite map of texts.
pub proof fn text_listing_lists(m: Map<Seq<char>, Seq<char>>)
    requires
        m.dom().finite(),
    ensures
        lists_text(text_listing(m), m),
    decreases m.dom().len(),
{
    if m.dom().len() == 0 {
        assert(lists_text(seq![], m));
    } else {
        let key = m.dom().choose();
        assert(m.dom().contains(key));
        let rest = m.remove(key);
        assert(rest.dom() =~= m.dom().remove(key));
        text_listing_lists(rest);
        let s = text_listing(rest);
        let at = lemma_place(s, rest, key, s.len() as int);
        let all = s.insert(at, (key, m[key]));
        assert forall|i: int, j: int| 0 <= i < j < all.len() implies text::text_before(
            (#[trigger] all[i]).0,
            (#[trigger] all[j]).0,
        ) by {
            let i1 = if i < at { i } else { i - 1 };
            let j1 = if j < at { j } else { j - 1 };
            if i != at && j != at {
                assert(text::text_before(s[i1].0, s[j1].0));
            } else if i == at {
                assert(text::text_before(key, s[j1].0));
            } else {
                assert(text::text_before(s[i1].0, key));
            }
        }
        assert forall|i: int| 0 <= i < all.len() implies m.contains_key((#[trigger] all[i]).0)
            && m[all[i].0] == all[i].1 by {
            if i != at {
                let i1 = if i < at { i } else { i - 1 };
                assert(all[i] == s[i1]);
                assert(rest.contains_key(s[i1].0));
            }
        }
        assert forall|k: Seq<char>| #[trigger] m.contains_key(k) implies exists|i: int|
            0 <= i < all.len() && (#[trigger] all[i]).0 == k by {
            if k == key {
                assert(all[at].0 == k);
            } else {
                assert(rest.contains_key(k));
                let i = choose|i: int| 0 <= i < s.len() && (#[trigger] s[i]).0 == k;
                let i2 = if i < at { i } else { i + 1 };
                assert(all[i2] == s[i]);
            }
        }
        assert(lists_text(all, m));
    }
}

/// Where a new key stands among the first `n` entries.
proof fn lemma_place(
    s: Seq<(Seq<char>, Seq<char>)>,
    m: Map<Seq<char>, Seq<char>>,
    key: Seq<char>,
    n: int,
) -> (at: int)
    requires
        lists_text(s, m),
        !m.contains_key(key),
        0 <= n <= s.len(),
        forall|j: int| n <= j < s.len() ==> text::text_before(key, (#[trigger] s[j]).0),
    ensures
        0 <= at <= s.len(),
        forall|j: int| 0 <= j < at ==> text::text_before((#[trigger] s[j]).0, key),
        forall|j: int| at <= j < s.len() ==> text::text_before(key, (#[trigger] s[j]).0),
    decreases n,
{
    if n == 0 {
        0
    } else {
        let last = s[n - 1].0;
        assert(m.contains_key(last));
        text::text_before_is_total_order(last, key, last);
        if text::text_before(last, key) {
            assert forall|j: int| 0 <= j < n implies text::text_before(
                (#[trigger] s[j]).0,
                key,
            ) by {
                if j < n - 1 {
                    assert(text::text_before(s[j].0, s[n - 1].0));
                    text::text_before_is_total_order(s[j].0, last, key);
                }
            }
            n
        } else {
            lemma_place(s, m, key, n - 1)
        }
    }
}

/// Whether all that can be read for `name` is the same in both images.
pub open spec fn reads_alike(img: Seq<u8>, img2: Seq<u8>, name: Seq<char>) -> bool {
    &&& read_scalar(img2, name) == read_scalar(img, name)
    &&& read_array(img2, name) == read_array(img, name)
    &&& read_assoc(img2, name) == read_assoc(img, name)
    &&& forall|key: Seq<char>| #[trigger] read_meta(img2, name, key) == read_meta(img, name, key)
}

/// Whether nothing can be read for `name`.
pub open spec fn reads_nothing(img: Seq<u8>, name: Seq<char>) -> bool {
    &&& read_scalar(img, name) == Ok::<Option<Seq<char>>, Error>(None)
    &&& read_array(img, name) == Ok::<Map<u64, Seq<char>>, Error>(Map::empty())
    &&& read_assoc(img, name) == Ok::<Map<Seq<char>, Seq<char>>, Error>(Map::empty())
    &&& forall|key: Seq<char>| #[trigger]
        read_meta(img, name, key) == Ok::<Option<Seq<char>>, Error>(None)
}

/// The records of writes.
pub open spec fn records_of(ws: Seq<Write>) -> Seq<Record> {
    ws.map_values(|w: Write| journal::record_of(w))
}

/// Records of other names do not count.
proof fn lemma_other_records(rs: Seq<Record>, more: Seq<Record>, name: Seq<char>)
    requires
        forall|i: int|
            0 <= i < more.len() ==> text::lossy_text((#[trigger] more[i]).name) != name,
    ensures
        scalar_after(rs + more, name) == scalar_after(rs, name),
        array_after(rs + more, name) == array_after(rs, name),
        assoc_after(rs + more, name) == assoc_after(rs, name),
        forall|key: Seq<char>| #[trigger]
            meta_after(rs + more, name, key) == meta_after(rs, name, key),
    decreases more.len(),
{
    if more.len() == 0 {
        assert(rs + more =~= rs);
    } else {
        assert((rs + more).drop_last() =~= rs + more.drop_last());
        lemma_other_records(rs, more.drop_last(), name);
        assert((rs + more).last() == more[more.len() - 1]);
        assert forall|key: Seq<char>| #[trigger]
            meta_after(rs + more, name, key) == meta_after(rs, name, key) by {
            assert(meta_after(rs + more.drop_last(), name, key) == meta_after(rs, name, key));
        }
    }
}

/// Writes for one name, made or not, change nothing that can be read for another name. So writers
/// of distinct names do not disturb each other, in whatever order their writes are made.
pub proof fn writes_leave_other_names(
    img: Seq<u8>,
    granted: nat,
    ws: Seq<Write>,
    name: Seq<char>,
    other: Seq<char>,
)
    requires
        journal::sound(img),
        forall|i: int| 0 <= i < ws.len() ==> (#[trigger] ws[i]).name == name,
        name != other,
    ensures
        reads_alike(img, journal::run(img, granted, ws).0, other),
{
    journal::run_keeps_sound(img, granted, ws);
    let made = journal::writes_made(img, granted, ws) as int;
    let rs = journal::region_records(img)->Ok_0;
    let more = records_of(ws.take(made));
    assert forall|i: int| 0 <= i < more.len() implies text::lossy_text((#[trigger] more[i]).name)
        != other by {
        text::lossy_text_of_encoding(ws[i].name);
    }
    lemma_other_records(rs, more, other);
    assert(ws.take(made).map_values(|w: Write| journal::record_of(w)) =~= more);
}

/// The records of an image to which all of `ws` were written.
proof fn lemma_run_records(img: Seq<u8>, granted: nat, ws: Seq<Write>)
    requires
        journal::sound(img),
        journal::run(img, granted, ws).1 is Ok,
    ensures
        journal::region_records(journal::run(img, granted, ws).0) == Ok::<Seq<Record>, Fault>(
            journal::region_records(img)->Ok_0 + records_of(ws),
        ),
{
    journal::run_keeps_sound(img, granted, ws);
    assert(ws.take(ws.len() as int) =~= ws);
    assert(ws.map_values(|w: Write| journal::record_of(w)) =~= records_of(ws));
}

/// Behind a tombstone of its name, records give the name nothing.
proof fn lemma_after_tombstone(rs: Seq<Record>, name: Seq<char>)
    ensures
        ({
            let t = journal::record_of(tombstone_write(name));
            &&& scalar_after(rs.push(t), name) is None
            &&& array_after(rs.push(t), name) == Map::<u64, Seq<char>>::empty()
            &&& assoc_after(rs.push(t), name) == Map::<Seq<char>, Seq<char>>::empty()
            &&& forall|key: Seq<char>| #[trigger] meta_after(rs.push(t), name, key) is None
        }),
{
    let t = journal::record_of(tombstone_write(name));
    text::lossy_text_of_encoding(name);
    assert(rs.push(t).drop_last() =~= rs);
}

/// What one live record behind `rs` gives its name.
proof fn lemma_after_live(
    rs: Seq<Record>,
    entry_type: EntryType,
    name: Seq<char>,
    key: Seq<char>,
    val: Seq<char>,
)
    ensures
        ({
            let r = journal::record_of(live_write(entry_type, name, key, val));
            &&& scalar_after(rs.push(r), name) == if entry_type == EntryType::Scalar {
                Some(val)
            } else {
                scalar_after(rs, name)
            }
            &&& array_after(rs.push(r), name) == if entry_type == EntryType::ArrayElement {
                match text::parsed_number(key, u64::MAX as nat) {
                    Some(index) => array_after(rs, name).insert(index as u64, val),
                    None => array_after(rs, name),
                }
            } else {
                array_after(rs, name)
            }
            &&& assoc_after(rs.push(r), name) == if entry_type == EntryType::AssocElement {
                assoc_after(rs, name).insert(key, val)
            } else {
                assoc_after(rs, name)
            }
            &&& forall|k: Seq<char>| #[trigger]
                meta_after(rs.push(r), name, k) == if entry_type == EntryType::Meta && k == key {
                    Some(val)
                } else {
                    meta_after(rs, name, k)
                }
        }),
{
    let r = journal::record_of(live_write(entry_type, name, key, val));
    text::lossy_text_of_encoding(name);
    text::lossy_text_of_encoding(key);
    text::lossy_text_of_encoding(val);
    assert(rs.push(r).drop_last() =~= rs);
}

/// Setting a scalar makes it what is read: the value comes back, the type is `scalar`, and no array
/// element and no other metadata of before is left.
pub proof fn scalar_reads_back(img: Seq<u8>, granted: nat, name: Seq<char>, val: Seq<char>)
    requires
        journal::sound(img),
        journal::run(img, granted, scalar_writes(name, val)).1 is Ok,
    ensures
        ({
            let img2 = journal::run(img, granted, scalar_writes(name, val)).0;
            &&& journal::sound(img2)
            &&& read_scalar(img2, name) == Ok::<Option<Seq<char>>, Error>(Some(val))
            &&& read_meta(img2, name, type_key()) == Ok::<Option<Seq<char>>, Error>(
                Some("scalar"@),
            )
            &&& forall|k: Seq<char>|
                k != type_key() ==> #[trigger] read_meta(img2, name, k) == Ok::<
                    Option<Seq<char>>,
                    Error,
                >(None)
            &&& read_array(img2, name) == Ok::<Map<u64, Seq<char>>, Error>(Map::empty())
            &&& read_assoc(img2, name) == Ok::<Map<Seq<char>, Seq<char>>, Error>(Map::empty())
        }),
{
    let ws = scalar_writes(name, val);
    journal::run_keeps_sound(img, granted, ws);
    lemma_run_records(img, granted, ws);
    let rs = journal::region_records(img)->Ok_0;
    let a = journal::record_of(ws[0]);
    let b = journal::record_of(ws[1]);
    let c = journal::record_of(ws[2]);
    assert(rs + records_of(ws) =~= rs.push(a).push(b).push(c));
    lemma_after_tombstone(rs, name);
    lemma_after_live(rs.push(a), EntryType::Meta, name, type_key(), "scalar"@);
    lemma_after_live(rs.push(a).push(b), EntryType::Scalar, name, seq![], val);
}

/// After a name is unset, nothing is read for it.
pub proof fn unset_reads_nothing(img: Seq<u8>, granted: nat, name: Seq<char>)
    requires
        journal::sound(img),
        journal::run(img, granted, unset_writes(name)).1 is Ok,
    ensures
        journal::sound(journal::run(img, granted, unset_writes(name)).0),
        reads_nothing(journal::run(img, granted, unset_writes(name)).0, name),
{
    let ws = unset_writes(name);
    journal::run_keeps_sound(img, granted, ws);
    lemma_run_records(img, granted, ws);
    let rs = journal::region_records(img)->Ok_0;
    assert(rs + records_of(ws) =~= rs.push(journal::record_of(ws[0])));
    lemma_after_tombstone(rs, name);
}

/// Setting metadata makes it what is read under its key, and changes nothing else.
pub proof fn meta_reads_back(
    img: Seq<u8>,
    granted: nat,
    name: Seq<char>,
    key: Seq<char>,
    val: Seq<char>,
)
    requires
        journal::sound(img),
        journal::run(img, granted, meta_writes(name, key, val)).1 is Ok,
    ensures
        ({
            let img2 = journal::run(img, granted, meta_writes(name, key, val)).0;
            &&& journal::sound(img2)
            &&& forall|k: Seq<char>| #[trigger]
                read_meta(img2, name, k) == if k == key {
                    Ok::<Option<Seq<char>>, Error>(Some(val))
                } else {
                    read_meta(img, name, k)
                }
            &&& read_scalar(img2, name) == read_scalar(img, name)
            &&& read_array(img2, name) == read_array(img, name)
            &&& read_assoc(img2, name) == read_assoc(img, name)
        }),
{
    let ws = meta_writes(name, key, val);
    journal::run_keeps_sound(img, granted, ws);
    lemma_run_records(img, granted, ws);
    let rs = journal::region_records(img)->Ok_0;
    assert(rs + records_of(ws) =~= rs.push(journal::record_of(ws[0])));
    lemma_after_live(rs, EntryType::Meta, name, key, val);
}

/// The element records of `m` give an array that was empty the elements of `m`.
proof fn lemma_array_elements(
    rs: Seq<Record>,
    name: Seq<char>,
    s: Seq<(u64, Seq<char>)>,
    m: Map<u64, Seq<char>>,
)
    requires
        lists(s, m),
        array_after(rs, name) == Map::<u64, Seq<char>>::empty(),
    ensures
        array_after(rs + records_of(array_elements(name, s)), name) == m,
        forall|k: Seq<char>| #[trigger]
            meta_after(rs + records_of(array_elements(name, s)), name, k) == meta_after(
                rs,
                name,
                k,
            ),
        scalar_after(rs + records_of(array_elements(name, s)), name) == scalar_after(rs, name),
        assoc_after(rs + records_of(array_elements(name, s)), name) == assoc_after(rs, name),
    decreases s.len(),
{
    let all = rs + records_of(array_elements(name, s));
    if s.len() == 0 {
        assert(all =~= rs);
        assert(m =~= Map::empty());
    } else {
        let d = s.drop_last();
        let (k, v) = s.last();
        lemma_lists_drop_last(s, m);
        lemma_array_elements(rs, name, d, m.remove(k));
        let before = rs + records_of(array_elements(name, d));
        let w = live_write(EntryType::ArrayElement, name, text::decimal_text(k as nat), v);
        assert(all =~= before.push(journal::record_of(w)));
        lemma_after_live(before, EntryType::ArrayElement, name, text::decimal_text(k as nat), v);
        text::parsed_number_of_decimal_text(k as nat, u64::MAX as nat);
        assert(m.contains_key(s[s.len() - 1].0));
        assert(m.remove(k).insert(k, v) =~= m);
    }
}

/// Setting an indexed array makes it what is read: every element comes back, no other is left, the
/// type is `array`, and no other metadata of before is left.
pub proof fn array_reads_back(
    img: Seq<u8>,
    granted: nat,
    name: Seq<char>,
    values: Map<u64, Seq<char>>,
)
    requires
        journal::sound(img),
        journal::run(img, granted, array_writes(name, values)).1 is Ok,
    ensures
        ({
            let img2 = journal::run(img, granted, array_writes(name, values)).0;
            &&& journal::sound(img2)
            &&& read_array(img2, name) == Ok::<Map<u64, Seq<char>>, Error>(values)
            &&& read_meta(img2, name, type_key()) == Ok::<Option<Seq<char>>, Error>(Some("array"@))
            &&& forall|k: Seq<char>|
                k != type_key() ==> #[trigger] read_meta(img2, name, k) == Ok::<
                    Option<Seq<char>>,
                    Error,
                >(None)
            &&& read_scalar(img2, name) == Ok::<Option<Seq<char>>, Error>(None)
            &&& read_assoc(img2, name) == Ok::<Map<Seq<char>, Seq<char>>, Error>(Map::empty())
        }),
{
    let ws = array_writes(name, values);
    journal::run_keeps_sound(img, granted, ws);
    lemma_run_records(img, granted, ws);
    let rs = journal::region_records(img)->Ok_0;
    let a = journal::record_of(ws[0]);
    let b = journal::record_of(ws[1]);
    listing_lists(values);
    let elements = array_elements(name, listing(values));
    assert(rs + records_of(ws) =~= rs.push(a).push(b) + records_of(elements));
    lemma_after_tombstone(rs, name);
    lemma_after_live(rs.push(a), EntryType::Meta, name, type_key(), "array"@);
    lemma_array_elements(rs.push(a).push(b), name, listing(values), values);
}

proof fn lemma_lists_text_drop_last(
    s: Seq<(Seq<char>, Seq<char>)>,
    m: Map<Seq<char>, Seq<char>>,
)
    requires
        lists_text(s, m),
        s.len() > 0,
    ensures
        lists_text(s.drop_last(), m.remove(s.last().0)),
{
    let rest = m.remove(s.last().0);
    let d = s.drop_last();
    let n = s.len() - 1;
    assert forall|i: int| 0 <= i < d.len() implies rest.contains_key((#[trigger] d[i]).0)
        && rest[d[i].0] == d[i].1 by {
        assert(d[i] == s[i]);
        assert(text::text_before(s[i].0, s[n].0));
        text::text_before_is_total_order(s[n].0, s[n].0, s[n].0);
    }
    assert forall|k: Seq<char>| #[trigger] rest.contains_key(k) implies exists|i: int|
        0 <= i < d.len() && (#[trigger] d[i]).0 == k by {
        assert(m.contains_key(k));
        let i = choose|i: int| 0 <= i < s.len() && (#[trigger] s[i]).0 == k;
        assert(d[i] == s[i]);
    }
}

/// The element records of `m` give an array that was empty the elements of `m`.
proof fn lemma_assoc_elements(
    rs: Seq<Record>,
    name: Seq<char>,
    s: Seq<(Seq<char>, Seq<char>)>,
    m: Map<Seq<char>, Seq<char>>,
)
    requires
        lists_text(s, m),
        assoc_after(rs, name) == Map::<Seq<char>, Seq<char>>::empty(),
    ensures
        assoc_after(rs + records_of(assoc_elements(name, s)), name) == m,
        forall|k: Seq<char>| #[trigger]
            meta_after(rs + records_of(assoc_elements(name, s)), name, k) == meta_after(
                rs,
                name,
                k,
            ),
        scalar_after(rs + records_of(assoc_elements(name, s)), name) == scalar_after(rs, name),
        array_after(rs + records_of(assoc_elements(name, s)), name) == array_after(rs, name),
    decreases s.len(),
{
    let all = rs + records_of(assoc_elements(name, s));
    if s.len() == 0 {
        assert(all =~= rs);
        assert(m =~= Map::empty());
    } else {
        let d = s.drop_last();
        let (k, v) = s.last();
        lemma_lists_text_drop_last(s, m);
        lemma_assoc_elements(rs, name, d, m.remove(k));
        let before = rs + records_of(assoc_elements(name, d));
        let w = live_write(EntryType::AssocElement, name, k, v);
        assert(all =~= before.push(journal::record_of(w)));
        lemma_after_live(before, EntryType::AssocElement, name, k, v);
        assert(m.contains_key(s[s.len() - 1].0));
        assert(m.remove(k).insert(k, v) =~= m);
    }
}

/// Setting an associative array makes it what is read: every element comes back, no other is left,
/// the type is `assoc`, and no other metadata of before is left.
pub proof fn assoc_reads_back(
    img: Seq<u8>,
    granted: nat,
    name: Seq<char>,
    values: Map<Seq<char>, Seq<char>>,
)
    requires
        journal::sound(img),
        values.dom().finite(),
        journal::run(img, granted, assoc_writes(name, values)).1 is Ok,
    ensures
        ({
            let img2 = journal::run(img, granted, assoc_writes(name, values)).0;
            &&& journal::sound(img2)
            &&& read_assoc(img2, name) == Ok::<Map<Seq<char>, Seq<char>>, Error>(values)
            &&& read_meta(img2, name, type_key()) == Ok::<Option<Seq<char>>, Error>(Some("assoc"@))
            &&& forall|k: Seq<char>|
                k != type_key() ==> #[trigger] read_meta(img2, name, k) == Ok::<
                    Option<Seq<char>>,
                    Error,
                >(None)
            &&& read_scalar(img2, name) == Ok::<Option<Seq<char>>, Error>(None)
            &&& read_array(img2, name) == Ok::<Map<u64, Seq<char>>, Error>(Map::empty())
        }),
{
    let ws = assoc_writes(name, values);
    let entries = text_listing(values);
    text_listing_lists(values);
    journal::run_keeps_sound(img, granted, ws);
    lemma_run_records(img, granted, ws);
    let rs = journal::region_records(img)->Ok_0;
    let a = journal::record_of(ws[0]);
    let b = journal::record_of(ws[1]);
    assert(rs + records_of(ws) =~= rs.push(a).push(b) + records_of(assoc_elements(name, entries)));
    lemma_after_tombstone(rs, name);
    lemma_after_live(rs.push(a), EntryType::Meta, name, type_key(), "assoc"@);
    lemma_assoc_elements(rs.push(a).push(b), name, entries, values);
}

} // verus!
