//! The `ObjectPropList` dataset.
//!
//! One request gives the name and the size of every object in a folder. The dataset holds a count,
//! and then one element for each property of each object:
//!
//! ```text
//! uint32  the handle of the object
//! uint16  the property code
//! uint16  the data type
//! ...     the value, in the width the data type gives
//! ```

use std::collections::BTreeMap;

use vstd::prelude::*;

use crate::ptp::bytes;
use crate::ptp::datatype;
use crate::ptp::error::ParseError;
use crate::ptp::prop;
use crate::ptp::reader;
use crate::ptp::reader::Reader;
use crate::ptp::utf16;

verus! {

/// The value of one object property.
#[derive(Debug, Clone, PartialEq, Eq)]
pub enum PropValue {
    /// A number of 64 bits or fewer.
    Number(u64),
    /// A string.
    Text(String),
    /// A value of 128 bits, which nothing here uses.
    Wide,
}

/// One property of one object, from a `GetObjectPropList` answer.
#[derive(Debug, Clone, PartialEq, Eq)]
pub struct PropEntry {
    /// The object.
    pub handle: u32,
    /// The property.
    pub code: u16,
    /// The value of the property.
    pub value: PropValue,
}

/// What a listing needs to know about one object.
#[derive(Debug, Clone, PartialEq, Eq)]
pub struct PropRecord {
    /// The object.
    pub handle: u32,
    /// The name of the object.
    pub name: String,
    /// The size of the object, in bytes.
    pub size: u64,
    /// The format code.
    pub format: u16,
    /// The handle of the folder that holds the object.
    pub parent: u32,
    /// The storage that holds the object.
    pub storage: u32,
}

/// What a [`PropValue`] holds.
pub enum ValueView {
    Number(u64),
    Text(Seq<char>),
    Wide,
}

/// What a [`PropEntry`] holds.
pub struct EntryView {
    pub handle: u32,
    pub code: u16,
    pub value: ValueView,
}

/// What a [`PropRecord`] holds.
pub struct RecordView {
    pub handle: u32,
    pub name: Seq<char>,
    pub size: u64,
    pub format: u16,
    pub parent: u32,
    pub storage: u32,
}

impl View for PropValue {
    type V = ValueView;

    open spec fn view(&self) -> ValueView {
        match *self {
            PropValue::Number(n) => ValueView::Number(n),
            PropValue::Text(s) => ValueView::Text(s@),
            PropValue::Wide => ValueView::Wide,
        }
    }
}

impl View for PropEntry {
    type V = EntryView;

    open spec fn view(&self) -> EntryView {
        EntryView { handle: self.handle, code: self.code, value: self.value@ }
    }
}

impl View for PropRecord {
    type V = RecordView;

    open spec fn view(&self) -> RecordView {
        RecordView {
            handle: self.handle,
            name: self.name@,
            size: self.size,
            format: self.format,
            parent: self.parent,
            storage: self.storage,
        }
    }
}

/// The views of entries.
pub open spec fn entry_views(entries: Seq<PropEntry>) -> Seq<EntryView> {
    entries.map_values(|e: PropEntry| e@)
}

impl Default for PropRecord {
    fn default() -> (r: Self)
        ensures
            r@ == blank(0),
    {
        PropRecord { handle: 0, name: String::new(), size: 0, format: 0, parent: 0, storage: 0 }
    }
}

impl PropRecord {
    /// Says whether the object is a folder.
    pub fn is_folder(&self) -> (r: bool)
        ensures
            r == (self.format == crate::ptp::format::ASSOCIATION),
    {
        self.format == crate::ptp::format::ASSOCIATION
    }
}

/// The width in bytes of a number or a wide value of this data type, and `None` for a string or a
/// data type whose width is not known.
pub open spec fn fixed_width(kind: u16) -> Option<(&'static str, int)> {
    if kind == datatype::INT8 || kind == datatype::UINT8 {
        Some(("prop_u8", 1))
    } else if kind == datatype::INT16 || kind == datatype::UINT16 {
        Some(("prop_u16", 2))
    } else if kind == datatype::INT32 || kind == datatype::UINT32 {
        Some(("prop_u32", 4))
    } else if kind == datatype::INT64 || kind == datatype::UINT64 {
        Some(("prop_u64", 8))
    } else if kind == datatype::INT128 || kind == datatype::UINT128 {
        Some(("prop_u128", 16))
    } else {
        None
    }
}

/// The value of fixed width at position `at`.
pub open spec fn fixed_value(p: Seq<u8>, at: int, width: int) -> ValueView {
    if width == 1 {
        ValueView::Number(p[at] as u64)
    } else if width == 2 {
        ValueView::Number(bytes::u16_at(p, at) as u64)
    } else if width == 4 {
        ValueView::Number(bytes::u32_at(p, at) as u64)
    } else if width == 8 {
        ValueView::Number(bytes::u64_at(p, at))
    } else {
        ValueView::Wide
    }
}

/// The value of this data type at position `at`.
pub open spec fn value_at(p: Seq<u8>, at: int, kind: u16) -> Result<ValueView, ParseError> {
    match fixed_width(kind) {
        Some((field, width)) => if at + width > p.len() {
            Err(reader::truncated(field, width, p.len() - at))
        } else {
            Ok(fixed_value(p, at, width))
        },
        None => if kind == datatype::STR {
            match reader::string_at(p, at, "prop_str") {
                Ok(t) => Ok(ValueView::Text(t)),
                Err(e) => Err(e),
            }
        } else {
            Err(ParseError::Unsupported { field: "prop_type", value: kind as u32 })
        },
    }
}

/// Where the value of this data type at position `at` ends.
pub open spec fn after_value(p: Seq<u8>, at: int, kind: u16) -> int {
    match fixed_width(kind) {
        Some((_, width)) => at + width,
        None => reader::after_string(p, at),
    }
}

/// The fields of fixed width that start an element.
pub open spec fn entry_fields() -> Seq<(&'static str, int)> {
    seq![("prop_handle", 4), ("prop_code", 2), ("prop_type", 2)]
}

/// The element at position `at`.
pub open spec fn entry_at(p: Seq<u8>, at: int) -> Result<EntryView, ParseError> {
    match reader::missing_field(entry_fields(), at, p.len() as int) {
        Some(e) => Err(e),
        None => match value_at(p, at + 8, bytes::u16_at(p, at + 6)) {
            Ok(value) => Ok(
                EntryView {
                    handle: bytes::u32_at(p, at),
                    code: bytes::u16_at(p, at + 4),
                    value,
                },
            ),
            Err(e) => Err(e),
        },
    }
}

/// Where the element at position `at` ends.
pub open spec fn after_entry(p: Seq<u8>, at: int) -> int {
    after_value(p, at + 8, bytes::u16_at(p, at + 6))
}

/// The `count` elements from position `at` on.
pub open spec fn entries_at(p: Seq<u8>, at: int, count: nat) -> Result<Seq<EntryView>, ParseError>
    decreases count,
{
    if count == 0 {
        Ok(Seq::empty())
    } else {
        match entry_at(p, at) {
            Err(e) => Err(e),
            Ok(first) => match entries_at(p, after_entry(p, at), (count - 1) as nat) {
                Err(e) => Err(e),
                Ok(rest) => Ok(seq![first] + rest),
            },
        }
    }
}

/// The elements of a dataset.
pub open spec fn prop_list_of(p: Seq<u8>) -> Result<Seq<EntryView>, ParseError> {
    if p.len() < 4 {
        Err(reader::truncated("prop_list_count", 4, p.len() as int))
    } else {
        entries_at(p, 4, bytes::u32_at(p, 0) as nat)
    }
}

/// Elements in front of the elements that follow them.
spec fn joined(front: Seq<EntryView>, rest: Result<Seq<EntryView>, ParseError>) -> Result<
    Seq<EntryView>,
    ParseError,
> {
    match rest {
        Ok(s) => Ok(front + s),
        Err(e) => Err(e),
    }
}

/// Reads one element.
fn read_entry(r: &mut Reader) -> (e: Result<PropEntry, ParseError>)
    requires
        old(r).wf(),
    ensures
        final(r).wf(),
        final(r).bytes() == old(r).bytes(),
        match e {
            Ok(entry) => entry_at(old(r).bytes(), old(r).at()) == Ok::<EntryView, ParseError>(
                entry@,
            ) && final(r).at() == after_entry(old(r).bytes(), old(r).at()),
            Err(fault) => entry_at(old(r).bytes(), old(r).at()) == Err::<EntryView, ParseError>(
                fault,
            ),
        },
{
    proof {
        reveal_with_fuel(reader::missing_field, 4);
    }
    let handle: u32 = r.read_u32("prop_handle")?;
    let code: u16 = r.read_u16("prop_code")?;
    let kind: u16 = r.read_u16("prop_type")?;
    let value = if kind == datatype::INT8 || kind == datatype::UINT8 {
        PropValue::Number(r.read_u8("prop_u8")? as u64)
    } else if kind == datatype::INT16 || kind == datatype::UINT16 {
        PropValue::Number(r.read_u16("prop_u16")? as u64)
    } else if kind == datatype::INT32 || kind == datatype::UINT32 {
        PropValue::Number(r.read_u32("prop_u32")? as u64)
    } else if kind == datatype::INT64 || kind == datatype::UINT64 {
        PropValue::Number(r.read_u64("prop_u64")?)
    } else if kind == datatype::INT128 || kind == datatype::UINT128 {
        r.take(16, "prop_u128")?;
        PropValue::Wide
    } else if kind == datatype::STR {
        PropValue::Text(r.read_string("prop_str")?)
    } else {
        return Err(ParseError::Unsupported { field: "prop_type", value: kind as u32 });
    };
    Ok(PropEntry { handle, code, value })
}

/// Reads an `ObjectPropList` dataset.
///
/// The function gives an error for a data type it does not know. A caller cannot step over a value
/// of unknown width, so the caller must use the older way for that device.
pub fn parse_object_prop_list(data: &[u8]) -> (r: Result<Vec<PropEntry>, ParseError>)
    ensures
        match r {
            Ok(v) => prop_list_of(data@) == Ok::<Seq<EntryView>, ParseError>(entry_views(v@)),
            Err(e) => prop_list_of(data@) == Err::<Seq<EntryView>, ParseError>(e),
        },
{
    let mut r = Reader::new(data);
    let count: u32 = r.read_u32("prop_list_count")?;
    // A count from a device cannot set the size of an allocation, because a wrong count then asks
    // for a very large block of memory.
    let mut out: Vec<PropEntry> = Vec::new();
    let mut i: u32 = 0;
    proof {
        let all = entries_at(data@, 4, count as nat);
        match all {
            Ok(s) => {
                assert(entry_views(out@) + s =~= s);
            },
            Err(_) => {},
        }
    }
    while i < count
        invariant
            i <= count,
            r.wf(),
            r.bytes() == data@,
            prop_list_of(data@) == joined(
                entry_views(out@),
                entries_at(data@, r.at(), (count - i) as nat),
            ),
        decreases count - i,
    {
        let ghost at = r.at();
        let ghost before = entry_views(out@);
        let entry = read_entry(&mut r)?;
        proof {
            assert(entry_views(out@.push(entry)) =~= before.push(entry@));
            match entries_at(data@, r.at(), (count - i - 1) as nat) {
                Ok(rest) => {
                    assert(before + (seq![entry@] + rest) =~= before.push(entry@) + rest);
                },
                Err(_) => {},
            }
        }
        out.push(entry);
        i = i + 1;
    }
    proof {
        assert(entry_views(out@) + Seq::<EntryView>::empty() =~= entry_views(out@));
    }
    Ok(out)
}

/// The handles of the objects, in the order in which the device first named them.
pub open spec fn handles_in_order(entries: Seq<EntryView>) -> Seq<u32>
    decreases entries.len(),
{
    if entries.len() == 0 {
        Seq::empty()
    } else {
        let before = handles_in_order(entries.drop_last());
        if before.contains(entries.last().handle) {
            before
        } else {
            before.push(entries.last().handle)
        }
    }
}

/// A record of which nothing but the handle is known.
pub open spec fn blank(handle: u32) -> RecordView {
    RecordView { handle, name: Seq::empty(), size: 0, format: 0, parent: 0, storage: 0 }
}

/// A record after one more property.
pub open spec fn with_property(rec: RecordView, code: u16, value: ValueView) -> RecordView {
    match value {
        ValueView::Text(s) => if code == prop::OBJECT_FILE_NAME {
            RecordView { name: s, ..rec }
        } else {
            rec
        },
        ValueView::Number(n) => if code == prop::OBJECT_SIZE {
            RecordView { size: n, ..rec }
        } else if code == prop::OBJECT_FORMAT {
            RecordView { format: n as u16, ..rec }
        } else if code == prop::PARENT_OBJECT {
            RecordView { parent: n as u32, ..rec }
        } else if code == prop::STORAGE_ID {
            RecordView { storage: n as u32, ..rec }
        } else {
            rec
        },
        ValueView::Wide => rec,
    }
}

/// What the entries say about one object.
pub open spec fn record_of(entries: Seq<EntryView>, handle: u32) -> RecordView
    decreases entries.len(),
{
    if entries.len() == 0 {
        blank(handle)
    } else {
        let before = record_of(entries.drop_last(), handle);
        if entries.last().handle == handle {
            with_property(before, entries.last().code, entries.last().value)
        } else {
            before
        }
    }
}

/// Whether the records are the objects of the entries, one record for each object and in the order
/// of the device.
pub open spec fn folds(entries: Seq<EntryView>, records: Seq<PropRecord>) -> bool {
    &&& records.len() == handles_in_order(entries).len()
    &&& forall|i: int|
        0 <= i < records.len() ==> (#[trigger] records[i])@ == record_of(
            entries,
            handles_in_order(entries)[i],
        )
}

/// Takes one more property into a record.
fn apply(rec: &mut PropRecord, code: u16, value: &PropValue)
    ensures
        final(rec)@ == with_property(old(rec)@, code, value@),
{
    match value {
        PropValue::Text(s) => {
            if code == prop::OBJECT_FILE_NAME {
                rec.name = s.clone();
            }
        },
        PropValue::Number(n) => {
            if code == prop::OBJECT_SIZE {
                rec.size = *n;
            } else if code == prop::OBJECT_FORMAT {
                rec.format = *n as u16;
            } else if code == prop::PARENT_OBJECT {
                rec.parent = *n as u32;
            } else if code == prop::STORAGE_ID {
                rec.storage = *n as u32;
            }
        },
        PropValue::Wide => {},
    }
}

/// An object that no entry names has a blank record.
proof fn lemma_unseen_is_blank(entries: Seq<EntryView>, handle: u32)
    requires
        !handles_in_order(entries).contains(handle),
    ensures
        record_of(entries, handle) == blank(handle),
    decreases entries.len(),
{
    if entries.len() > 0 {
        let front = entries.drop_last();
        let before = handles_in_order(front);
        let after = handles_in_order(entries);
        if before.contains(handle) {
            assert(after[before.index_of(handle)] == handle);
        }
        if entries.last().handle == handle {
            if !before.contains(handle) {
                assert(after[before.len() as int] == handle);
            }
        }
        lemma_unseen_is_blank(front, handle);
    }
}

/// Collects the properties of each object into one record for each object.
///
/// The order of the answer is the order of the device, so a listing matches the older way.
pub fn fold_prop_list(entries: &[PropEntry]) -> (r: Vec<PropRecord>)
    ensures
        folds(entry_views(entries@), r@),
{
    let mut out: Vec<PropRecord> = Vec::new();
    let mut seen: BTreeMap<u32, usize> = BTreeMap::new();
    let mut i: usize = 0;
    proof {
        assert(entry_views(entries@).take(0) =~= Seq::empty());
    }
    while i < entries.len()
        invariant
            i <= entries@.len(),
            folds(entry_views(entries@).take(i as int), out@),
            forall|h: u32| #[trigger]
                seen@.contains_key(h) <==> handles_in_order(
                    entry_views(entries@).take(i as int),
                ).contains(h),
            forall|h: u32| #[trigger]
                seen@.contains_key(h) ==> 0 <= seen@[h] < out@.len() && handles_in_order(
                    entry_views(entries@).take(i as int),
                )[seen@[h] as int] == h,
            handles_in_order(entry_views(entries@).take(i as int)).no_duplicates(),
        decreases entries@.len() - i,
    {
        let ghost done = entry_views(entries@).take(i as int);
        let ghost next = entry_views(entries@).take(i + 1);
        let e = &entries[i];
        proof {
            assert(next.drop_last() =~= done);
            assert(next.last() == e@);
        }
        let found: Option<usize> = match seen.get(&e.handle) {
            Some(at) => Some(*at),
            None => None,
        };
        let at: usize = match found {
            Some(at) => at,
            None => {
                let fresh: usize = out.len();
                out.push(PropRecord { handle: e.handle, ..PropRecord::default() });
                seen.insert(e.handle, fresh);
                fresh
            },
        };
        apply(&mut out[at], e.code, &e.value);
        proof {
            let before = handles_in_order(done);
            let after = handles_in_order(next);
            if !before.contains(e.handle) {
                lemma_unseen_is_blank(done, e.handle);
                assert(after[before.len() as int] == e.handle);
                assert forall|h: u32| before.contains(h) implies after.contains(h) by {
                    let k = before.index_of(h);
                    assert(after[k] == h);
                }
            }
            assert forall|j: int| 0 <= j < out@.len() implies (#[trigger] out@[j])@ == record_of(
                next,
                after[j],
            ) by {
                if j != at {
                    assert(after[j] == before[j]);
                    assert(before.contains(before[j]));
                }
            }
        }
        i = i + 1;
    }
    proof {
        assert(entry_views(entries@).take(entries@.len() as int) =~= entry_views(entries@));
    }
    out
}

/// Every object that an entry names has exactly one record, and no other object has one.
pub proof fn law_one_record_for_each_object(entries: Seq<EntryView>)
    ensures
        handles_in_order(entries).no_duplicates(),
        forall|h: u32| #[trigger]
            handles_in_order(entries).contains(h) <==> exists|i: int|
                0 <= i < entries.len() && (#[trigger] entries[i]).handle == h,
        forall|h: u32| (#[trigger] record_of(entries, h)).handle == h,
    decreases entries.len(),
{
    if entries.len() > 0 {
        let front = entries.drop_last();
        let before = handles_in_order(front);
        let after = handles_in_order(entries);
        law_one_record_for_each_object(front);
        assert forall|h: u32| (#[trigger] record_of(entries, h)).handle == h by {
            assert(record_of(front, h).handle == h);
        }
        assert forall|h: u32| #[trigger] after.contains(h) implies exists|i: int|
            0 <= i < entries.len() && (#[trigger] entries[i]).handle == h by {
            if before.contains(h) {
                let i = choose|i: int| 0 <= i < front.len() && (#[trigger] front[i]).handle == h;
                assert(entries[i].handle == h);
            } else {
                assert(entries[entries.len() - 1].handle == h);
            }
        }
        assert forall|i: int| 0 <= i < entries.len() implies after.contains(
            (#[trigger] entries[i]).handle,
        ) by {
            let h = entries[i].handle;
            if i < front.len() {
                assert(front[i].handle == h);
                assert(before.contains(h));
            }
            if before.contains(h) {
                assert(after[before.index_of(h)] == h);
            } else {
                assert(after[before.len() as int] == h);
            }
        }
    }
}

/// The records stand in the order in which the device first named the objects: the record of an
/// object stands before the record of every object that is first named later.
pub proof fn law_records_keep_the_order_of_the_device(
    entries: Seq<EntryView>,
    first: int,
    second: int,
)
    requires
        0 <= first < second < entries.len(),
        forall|j: int| 0 <= j < first ==> (#[trigger] entries[j]).handle != entries[first].handle,
        forall|j: int| 0 <= j < second ==> (#[trigger] entries[j]).handle != entries[second].handle,
    ensures
        handles_in_order(entries).contains(entries[first].handle),
        handles_in_order(entries).contains(entries[second].handle),
        handles_in_order(entries).index_of(entries[first].handle) < handles_in_order(
            entries,
        ).index_of(entries[second].handle),
    decreases entries.len(),
{
    let front = entries.drop_last();
    let a = entries[first].handle;
    let b = entries[second].handle;
    let before = handles_in_order(front);
    let after = handles_in_order(entries);
    law_one_record_for_each_object(front);
    law_one_record_for_each_object(entries);
    assert(front[first].handle == a);
    assert(before.contains(a));
    let k = before.index_of(a);
    assert(after[k] == a);
    assert(after.index_of(a) == k);
    if second == entries.len() - 1 {
        assert(!before.contains(b)) by {
            if before.contains(b) {
                let i = choose|i: int| 0 <= i < front.len() && (#[trigger] front[i]).handle == b;
                assert(entries[i].handle == b);
            }
        }
        assert(after[before.len() as int] == b);
    } else {
        assert forall|j: int| 0 <= j < first implies (#[trigger] front[j]).handle
            != front[first].handle by {
            assert(entries[j].handle != a);
        }
        assert forall|j: int| 0 <= j < second implies (#[trigger] front[j]).handle
            != front[second].handle by {
            assert(entries[j].handle != b);
        }
        law_records_keep_the_order_of_the_device(front, first, second);
        let m = before.index_of(b);
        assert(after[m] == b);
        assert(after.index_of(b) == m);
    }
}

/// Entries about other objects do not change the record of an object.
pub proof fn law_other_objects_do_not_matter(
    entries: Seq<EntryView>,
    more: Seq<EntryView>,
    handle: u32,
)
    requires
        forall|i: int| 0 <= i < more.len() ==> (#[trigger] more[i]).handle != handle,
    ensures
        record_of(entries + more, handle) == record_of(entries, handle),
    decreases more.len(),
{
    if more.len() == 0 {
        assert(entries + more =~= entries);
    } else {
        assert((entries + more).drop_last() =~= entries + more.drop_last());
        law_other_objects_do_not_matter(entries, more.drop_last(), handle);
        assert(more[more.len() - 1].handle != handle);
    }
}

/// A dataset that can be read holds at least nine bytes for each element that its count declares,
/// so a count that is too large is always an error.
pub proof fn law_count_is_bounded_by_the_buffer(p: Seq<u8>)
    requires
        prop_list_of(p) is Ok,
    ensures
        prop_list_of(p)->Ok_0.len() == bytes::u32_at(p, 0),
        4 + 9 * bytes::u32_at(p, 0) <= p.len(),
{
    lemma_entries_take_bytes(p, 4, bytes::u32_at(p, 0) as nat);
}

proof fn lemma_entries_take_bytes(p: Seq<u8>, at: int, count: nat)
    requires
        0 <= at <= p.len(),
        entries_at(p, at, count) is Ok,
    ensures
        entries_at(p, at, count)->Ok_0.len() == count,
        at + 9 * count <= p.len(),
    decreases count,
{
    if count > 0 {
        reveal_with_fuel(reader::missing_field, 4);
        lemma_entries_take_bytes(p, after_entry(p, at), (count - 1) as nat);
    }
}

/// Whether units are a text as a PTP string holds it: with the terminator, or without it where the last
/// unit cannot be taken for one.
pub open spec fn units_of_text(units: Seq<u16>, t: Seq<char>) -> bool {
    ||| units == utf16::encode(t).push(0)
    ||| units == utf16::encode(t) && (units.len() == 0 || units.last() != 0)
}

/// Whether the bytes `b` are a PTP string that holds `t`.
pub open spec fn is_string(b: Seq<u8>, t: Seq<char>, units: Seq<u16>) -> bool {
    &&& units.len() <= 255
    &&& b == seq![units.len() as u8] + bytes::u16_list_bytes(units)
    &&& units_of_text(units, t)
}

/// Whether the bytes `el` are an element that says `e`: four bytes of the handle, two of the code, two of the
/// data type, and the value in as many bytes as the data type has.
pub open spec fn spells(el: Seq<u8>, e: EntryView) -> bool {
    let kind = bytes::u16_at(el, 6);
    &&& el.len() >= 9
    &&& e.handle == bytes::u32_at(el, 0)
    &&& e.code == bytes::u16_at(el, 4)
    &&& if kind == 0x0001 || kind == 0x0002 {
        el.len() == 9 && e.value is Number && e.value->Number_0 == el[8]
    } else if kind == 0x0003 || kind == 0x0004 {
        el.len() == 10 && e.value is Number && e.value->Number_0 == el[8] + 256 * el[9]
    } else if kind == 0x0005 || kind == 0x0006 {
        el.len() == 12 && e.value is Number && e.value->Number_0 == el[8] + 256 * (el[9] + 256 * (
        el[10] + 256 * el[11]))
    } else if kind == 0x0007 || kind == 0x0008 {
        el.len() == 16 && e.value is Number && e.value->Number_0 == el[8] + 256 * (el[9] + 256 * (
        el[10] + 256 * (el[11] + 256 * (el[12] + 256 * (el[13] + 256 * (el[14] + 256 * el[15]))))))
    } else if kind == 0x0009 || kind == 0x000a {
        el.len() == 24 && e.value is Wide
    } else {
        &&& kind == 0xffff
        &&& e.value is Text
        &&& exists|units: Seq<u16>| #[trigger] is_string(el.skip(8), e.value->Text_0, units)
    }
}

/// Elements, one behind the other.
pub open spec fn run_together(els: Seq<Seq<u8>>) -> Seq<u8>
    decreases els.len(),
{
    if els.len() == 0 {
        Seq::empty()
    } else {
        els[0] + run_together(els.drop_first())
    }
}

/// An element that is written for a number of any width reads as that handle, that code and that number,
/// for every value and whatever bytes stand around it.
pub proof fn law_a_written_number_reads_back(
    before: Seq<u8>,
    handle: u32,
    code: u16,
    kind: u16,
    v: u64,
    after: Seq<u8>,
)
    requires
        1 <= kind <= 8,
        kind <= 2 ==> v < 0x100,
        kind <= 4 ==> v < 0x1_0000,
        kind <= 6 ==> v < 0x1_0000_0000,
    ensures
        ({
            let width: int = if kind <= 2 {
                1
            } else if kind <= 4 {
                2
            } else if kind <= 6 {
                4
            } else {
                8
            };
            let el = bytes::u32_bytes(handle) + bytes::u16_bytes(code) + bytes::u16_bytes(kind)
                + bytes::u64_bytes(v).take(width);
            let p = before + el + after;
            &&& entry_at(p, before.len() as int) == Ok::<EntryView, ParseError>(
                EntryView { handle, code, value: ValueView::Number(v) },
            )
            &&& after_entry(p, before.len() as int) == p.len() - after.len()
        }),
{
    let width: int = if kind <= 2 {
        1
    } else if kind <= 4 {
        2
    } else if kind <= 6 {
        4
    } else {
        8
    };
    let w = bytes::u64_bytes(v).take(width);
    let h = bytes::u32_bytes(handle);
    let c = bytes::u16_bytes(code);
    let k = bytes::u16_bytes(kind);
    let el = h + c + k + w;
    let low = (v % 0x1_0000_0000) as u32;
    bytes::law_u64_round_trip(Seq::empty(), v, Seq::empty());
    assert(Seq::<u8>::empty() + bytes::u64_bytes(v) + Seq::<u8>::empty() =~= bytes::u64_bytes(v));
    bytes::law_numbers_are_little_endian(bytes::u64_bytes(v), 0);
    bytes::law_written_numbers_add_up(code, low);
    bytes::lemma_u32_round_trip(Seq::empty(), handle, c + k + w);
    assert(el =~= Seq::<u8>::empty() + h + (c + k + w));
    bytes::lemma_u16_round_trip(h, code, k + w);
    assert(el =~= h + c + (k + w));
    bytes::lemma_u16_round_trip(h + c, kind, w);
    assert(el =~= (h + c) + k + w);
    assert forall|i: int| 0 <= i < width implies el[8 + i] == #[trigger] bytes::u64_bytes(v)[i] by {}
    let e = EntryView { handle, code, value: ValueView::Number(v) };
    assert(el[8] == bytes::u64_bytes(v)[0]);
    if width >= 2 {
        assert(el[9] == bytes::u64_bytes(v)[1]);
    }
    if width >= 4 {
        assert(el[10] == bytes::u64_bytes(v)[2]);
        assert(el[11] == bytes::u64_bytes(v)[3]);
    }
    if width >= 8 {
        assert(el[12] == bytes::u64_bytes(v)[4]);
        assert(el[13] == bytes::u64_bytes(v)[5]);
        assert(el[14] == bytes::u64_bytes(v)[6]);
        assert(el[15] == bytes::u64_bytes(v)[7]);
    }
    assert(spells(el, e));
    law_an_element_reads_as_it_spells(before, el, e, after);
}

/// An element reads as what its bytes spell, and the next one starts behind its last byte, whatever bytes
/// stand around it.
pub proof fn law_an_element_reads_as_it_spells(
    before: Seq<u8>,
    el: Seq<u8>,
    e: EntryView,
    after: Seq<u8>,
)
    requires
        spells(el, e),
    ensures
        entry_at(before + el + after, before.len() as int) == Ok::<EntryView, ParseError>(e),
        after_entry(before + el + after, before.len() as int) == before.len() + el.len(),
{
    reveal_with_fuel(reader::missing_field, 4);
    let p = before + el + after;
    let at = before.len() as int;
    assert forall|i: int| 0 <= i < el.len() implies p[at + i] == #[trigger] el[i] by {}
    assert(p[at] == el[0] && p[at + 1] == el[1] && p[at + 2] == el[2] && p[at + 3] == el[3]);
    assert(p[at + 4] == el[4] && p[at + 5] == el[5] && p[at + 6] == el[6] && p[at + 7] == el[7]);
    assert(p[at + 8] == el[8]);
    let kind = bytes::u16_at(el, 6);
    assert(bytes::u16_at(p, at + 6) == kind);
    assert(bytes::u32_at(p, at) == e.handle);
    assert(bytes::u16_at(p, at + 4) == e.code);
    if kind == 0xffff {
        lemma_text_element(before, el, e, after);
    } else {
        if el.len() >= 10 {
            assert(p[at + 9] == el[9]);
        }
        if el.len() >= 12 {
            assert(p[at + 10] == el[10] && p[at + 11] == el[11]);
        }
        if el.len() >= 16 {
            assert(p[at + 12] == el[12] && p[at + 13] == el[13]);
            assert(p[at + 14] == el[14] && p[at + 15] == el[15]);
        }
        bytes::law_numbers_are_little_endian(p, at + 8);
    }
}

/// The string of an element reads as the text that it holds.
proof fn lemma_text_element(before: Seq<u8>, el: Seq<u8>, e: EntryView, after: Seq<u8>)
    requires
        spells(el, e),
        bytes::u16_at(el, 6) == 0xffff,
    ensures
        ({
            let p = before + el + after;
            let at = before.len() as int + 8;
            &&& reader::string_at(p, at, "prop_str") == Ok::<Seq<char>, ParseError>(
                e.value->Text_0,
            )
            &&& reader::after_string(p, at) == before.len() + el.len()
        }),
{
    let p = before + el + after;
    let at = before.len() as int + 8;
    let t = e.value->Text_0;
    let units = choose|units: Seq<u16>| #[trigger] is_string(el.skip(8), t, units);
    bytes::lemma_u16_list_len(units);
    let front = before + el.take(8);
    assert(p =~= front + seq![units.len() as u8] + bytes::u16_list_bytes(units) + after) by {
        assert(el =~= el.take(8) + el.skip(8));
    }
    if units.len() == 0 {
        assert(p[at] == 0);
        reader::law_a_string_must_be_whole(p, at, "prop_str");
        if t.len() > 0 {
            let last = t.last();
            utf16::law_what_a_character_is_written_as(last);
            assert(utf16::encode(t) == utf16::encode(t.drop_last()) + utf16::encode_char(last));
            assert(utf16::encode(t).len() > 0);
        }
        assert(t =~= Seq::empty());
    } else {
        reader::law_a_string_reads_its_units(front, units, after, "prop_str");
        let spelled = if units.last() == 0 {
            units.drop_last()
        } else {
            units
        };
        assert(utf16::encode(t).push(0).drop_last() =~= utf16::encode(t));
        assert(spelled == utf16::encode(t));
        match reader::string_at(p, at, "prop_str") {
            Ok(u) => {
                utf16::law_units_spell_what_they_are_the_writing_of(spelled, u);
                utf16::law_units_spell_what_they_are_the_writing_of(spelled, t);
            },
            Err(_) => {},
        }
    }
}

/// A dataset of a count and as many elements reads as all of these elements, in order. Bytes behind the
/// last element are ignored.
pub proof fn law_a_list_reads_as_its_elements(
    els: Seq<Seq<u8>>,
    entries: Seq<EntryView>,
    after: Seq<u8>,
)
    requires
        els.len() == entries.len() <= u32::MAX,
        forall|i: int| 0 <= i < els.len() ==> spells(#[trigger] els[i], entries[i]),
    ensures
        prop_list_of(bytes::u32_bytes(els.len() as u32) + run_together(els) + after) == Ok::<
            Seq<EntryView>,
            ParseError,
        >(entries),
{
    let count = bytes::u32_bytes(els.len() as u32);
    let p = count + run_together(els) + after;
    bytes::lemma_u32_round_trip(Seq::empty(), els.len() as u32, run_together(els) + after);
    assert(p =~= Seq::<u8>::empty() + count + (run_together(els) + after));
    lemma_elements_read(count, els, entries, after);
}

proof fn lemma_elements_read(
    before: Seq<u8>,
    els: Seq<Seq<u8>>,
    entries: Seq<EntryView>,
    after: Seq<u8>,
)
    requires
        els.len() == entries.len(),
        forall|i: int| 0 <= i < els.len() ==> spells(#[trigger] els[i], entries[i]),
    ensures
        entries_at(before + run_together(els) + after, before.len() as int, els.len()) == Ok::<
            Seq<EntryView>,
            ParseError,
        >(entries),
    decreases els.len(),
{
    if els.len() == 0 {
        assert(entries =~= Seq::empty());
    } else {
        let rest = els.drop_first();
        let more = entries.drop_first();
        let p = before + run_together(els) + after;
        assert forall|i: int| 0 <= i < rest.len() implies spells(#[trigger] rest[i], more[i]) by {
            assert(rest[i] == els[i + 1]);
        }
        law_an_element_reads_as_it_spells(before, els[0], entries[0], run_together(rest) + after);
        assert(p =~= before + els[0] + (run_together(rest) + after));
        lemma_elements_read(before + els[0], rest, more, after);
        assert(p =~= (before + els[0]) + run_together(rest) + after);
        assert(seq![entries[0]] + more =~= entries);
    }
}

/// An element cannot be read where its first eight bytes are not there, where its data type has no known
/// width, or where its number is cut short. The error says which.
pub proof fn law_what_makes_an_element_unreadable(p: Seq<u8>, at: int)
    requires
        0 <= at <= p.len(),
    ensures
        at + 8 > p.len() ==> entry_at(p, at) is Err,
        at + 8 <= p.len() ==> ({
            let kind = bytes::u16_at(p, at + 6);
            let left = p.len() - at - 8;
            &&& (kind == 0 || 10 < kind < 0xffff) ==> entry_at(p, at) == Err::<
                EntryView,
                ParseError,
            >(ParseError::Unsupported { field: "prop_type", value: kind as u32 })
            &&& 1 <= kind <= 2 ==> (entry_at(p, at) is Ok <==> left >= 1)
            &&& 3 <= kind <= 4 ==> (entry_at(p, at) is Ok <==> left >= 2)
            &&& 5 <= kind <= 6 ==> (entry_at(p, at) is Ok <==> left >= 4)
            &&& 7 <= kind <= 8 ==> (entry_at(p, at) is Ok <==> left >= 8)
            &&& 9 <= kind <= 10 ==> (entry_at(p, at) is Ok <==> left >= 16)
            &&& kind == 0xffff ==> (entry_at(p, at) is Ok <==> reader::string_at(
                p,
                at + 8,
                "prop_str",
            ) is Ok)
            &&& kind == 0xffff && entry_at(p, at) is Err ==> entry_at(p, at)->Err_0
                == reader::string_at(p, at + 8, "prop_str")->Err_0
            &&& 1 <= kind <= 10 && entry_at(p, at) is Err ==> entry_at(p, at)->Err_0 is Truncated
                && entry_at(p, at)->Err_0->Truncated_got == left
        }),
{
    reveal_with_fuel(reader::missing_field, 4);
}

/// What one more property changes in the record of its object: a number for the size, the format, the parent
/// or the storage is that field from now on, a text for the file name is the name, and nothing else changes
/// anything.
pub proof fn law_what_a_property_changes(entries: Seq<EntryView>, e: EntryView)
    ensures
        ({
            let was = record_of(entries, e.handle);
            let is = record_of(entries.push(e), e.handle);
            match e.value {
                ValueView::Number(n) => {
                    &&& is.name == was.name
                    &&& is.size == if e.code == 0xdc04 {
                        n
                    } else {
                        was.size
                    }
                    &&& is.format == if e.code == 0xdc02 {
                        n as int % 0x1_0000
                    } else {
                        was.format as int
                    }
                    &&& is.parent == if e.code == 0xdc0b {
                        n as int % 0x1_0000_0000
                    } else {
                        was.parent as int
                    }
                    &&& is.storage == if e.code == 0xdc01 {
                        n as int % 0x1_0000_0000
                    } else {
                        was.storage as int
                    }
                },
                ValueView::Text(t) => {
                    &&& is.name == if e.code == 0xdc07 {
                        t
                    } else {
                        was.name
                    }
                    &&& is.size == was.size
                    &&& is.format == was.format
                    &&& is.parent == was.parent
                    &&& is.storage == was.storage
                },
                ValueView::Wide => is == was,
            }
        }),
{
    assert(entries.push(e).drop_last() =~= entries);
    match e.value {
        ValueView::Number(n) => {
            assert(n as u16 == n % 0x1_0000) by (bit_vector);
            assert(n as u32 == n % 0x1_0000_0000) by (bit_vector);
        },
        _ => {},
    }
}

/// An object that no element names has a record with nothing in it but the handle.
pub proof fn law_an_unnamed_object_has_a_blank_record(entries: Seq<EntryView>, handle: u32)
    requires
        forall|i: int| 0 <= i < entries.len() ==> (#[trigger] entries[i]).handle != handle,
    ensures
        record_of(entries, handle).handle == handle,
        record_of(entries, handle).name.len() == 0,
        record_of(entries, handle).size == 0,
        record_of(entries, handle).format == 0,
        record_of(entries, handle).parent == 0,
        record_of(entries, handle).storage == 0,
{
    law_other_objects_do_not_matter(Seq::empty(), entries, handle);
    assert(Seq::<EntryView>::empty() + entries =~= entries);
}

/// What the folding gives back: a record for each object that an element names, in the order of their first
/// elements, and each record is what the elements say of its object.
pub proof fn law_folding_gives_every_record(entries: &[PropEntry], r: Vec<PropRecord>)
    requires
        call_ensures(fold_prop_list, (entries,), r),
    ensures
        r@.len() == handles_in_order(entry_views(entries@)).len(),
        forall|i: int|
            0 <= i < r@.len() ==> (#[trigger] r@[i])@ == record_of(
                entry_views(entries@),
                handles_in_order(entry_views(entries@))[i],
            ),
{
}

/// A dataset that is parsed gives an entry for each of its elements, in order and with its value.
pub proof fn law_parsing_gives_every_element(
    els: Seq<Seq<u8>>,
    entries: Seq<EntryView>,
    after: Seq<u8>,
    data: &[u8],
    r: Result<Vec<PropEntry>, ParseError>,
)
    requires
        els.len() == entries.len() <= u32::MAX,
        forall|i: int| 0 <= i < els.len() ==> spells(#[trigger] els[i], entries[i]),
        data@ == bytes::u32_bytes(els.len() as u32) + run_together(els) + after,
        call_ensures(parse_object_prop_list, (data,), r),
    ensures
        r is Ok,
        r->Ok_0@.len() == els.len(),
        forall|i: int| 0 <= i < els.len() ==> (#[trigger] r->Ok_0@[i])@ == entries[i],
{
    law_a_list_reads_as_its_elements(els, entries, after);
    let v = r->Ok_0@;
    assert(entry_views(v) == entries);
    assert forall|i: int| 0 <= i < els.len() implies (#[trigger] v[i])@ == entries[i] by {
        assert(entry_views(v)[i] == v[i]@);
    }
}

/// A record is that of a folder exactly where its format is 0x3001.
pub proof fn law_which_records_are_folders(rec: &PropRecord, r: bool)
    requires
        call_ensures(PropRecord::is_folder, (rec,), r),
    ensures
        r <==> rec.format == 0x3001,
{
}

} // verus!
