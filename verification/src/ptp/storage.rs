//! The `StorageInfo` dataset.

use vstd::prelude::*;

use crate::ptp::bytes;
use crate::ptp::error::ParseError;
use crate::ptp::reader;
use crate::ptp::utf16;
use crate::ptp::reader::Reader;

verus! {

/// What a device reports about one storage.
///
/// `GetStorageInfo` answers with this dataset.
#[derive(Debug, Clone, PartialEq, Eq)]
pub struct StorageInfo {
    /// 0x0003 means fixed RAM storage.
    pub storage_type: u16,
    /// 0x0002 means a generic hierarchical filesystem.
    pub filesystem_type: u16,
    /// 0x0000 means read and write.
    pub access_capability: u16,
    /// The size of the storage, in bytes.
    pub max_capacity: u64,
    /// The free space, in bytes.
    pub free_space_in_bytes: u64,
    /// The count of objects the storage can still hold.
    pub free_space_in_objects: u32,
    /// A name for the storage, such as `Internal storage`.
    pub storage_description: String,
    /// A volume label. Many devices leave the label empty.
    pub volume_identifier: String,
}

/// The fields of fixed width that start the dataset.
pub open spec fn storage_fields() -> Seq<(&'static str, int)> {
    seq![
        ("storage_type", 2),
        ("filesystem_type", 2),
        ("access_capability", 2),
        ("max_capacity", 8),
        ("free_space_in_bytes", 8),
        ("free_space_in_objects", 4),
    ]
}

/// Where the volume label stands.
pub open spec fn label_at(p: Seq<u8>) -> int {
    reader::after_string(p, 26)
}

/// The first fault of a dataset.
pub open spec fn storage_fault(p: Seq<u8>) -> Option<ParseError> {
    reader::first_fault(
        reader::missing_field(storage_fields(), 0, p.len() as int),
        reader::first_fault(
            reader::string_fault(p, 26, "storage_description"),
            reader::string_fault(p, label_at(p), "volume_identifier"),
        ),
    )
}

impl StorageInfo {
    /// Whether the value is what the dataset says.
    pub open spec fn reads(self, p: Seq<u8>) -> bool {
        &&& self.storage_type == bytes::u16_at(p, 0)
        &&& self.filesystem_type == bytes::u16_at(p, 2)
        &&& self.access_capability == bytes::u16_at(p, 4)
        &&& self.max_capacity == bytes::u64_at(p, 6)
        &&& self.free_space_in_bytes == bytes::u64_at(p, 14)
        &&& self.free_space_in_objects == bytes::u32_at(p, 22)
        &&& Ok::<Seq<char>, ParseError>(self.storage_description@) == reader::string_at(
            p,
            26,
            "storage_description",
        )
        &&& Ok::<Seq<char>, ParseError>(self.volume_identifier@) == reader::string_at(
            p,
            label_at(p),
            "volume_identifier",
        )
    }

    /// Reads a `StorageInfo` dataset from the payload of a data container.
    ///
    /// The function ignores a byte after the dataset. Some devices append a vendor field, and an
    /// unknown trailing byte is not a fault.
    pub fn parse(payload: &[u8]) -> (r: Result<Self, ParseError>)
        ensures
            match r {
                Ok(info) => storage_fault(payload@) is None && info.reads(payload@),
                Err(e) => storage_fault(payload@) == Some(e),
            },
    {
        proof {
            reveal_with_fuel(reader::missing_field, 7);
        }
        let mut r = Reader::new(payload);
        let storage_type: u16 = r.read_u16("storage_type")?;
        let filesystem_type: u16 = r.read_u16("filesystem_type")?;
        let access_capability: u16 = r.read_u16("access_capability")?;
        let max_capacity: u64 = r.read_u64("max_capacity")?;
        let free_space_in_bytes: u64 = r.read_u64("free_space_in_bytes")?;
        let free_space_in_objects: u32 = r.read_u32("free_space_in_objects")?;
        let storage_description = r.read_string("storage_description")?;
        let volume_identifier = r.read_string("volume_identifier")?;
        Ok(
            StorageInfo {
                storage_type,
                filesystem_type,
                access_capability,
                max_capacity,
                free_space_in_bytes,
                free_space_in_objects,
                storage_description,
                volume_identifier,
            },
        )
    }
}

/// Bytes behind a dataset change nothing that is read from it.
pub proof fn law_storage_ignores_trailing_bytes(info: StorageInfo, p: Seq<u8>, extra: Seq<u8>)
    requires
        storage_fault(p) is None,
    ensures
        storage_fault(p + extra) is None,
        info.reads(p) <==> info.reads(p + extra),
{
    reveal_with_fuel(reader::missing_field, 7);
    reader::lemma_string_ignores_trailing_bytes(p, extra, 26, "storage_description");
    reader::lemma_string_ignores_trailing_bytes(p, extra, label_at(p), "volume_identifier");
}

/// Every field of a storage dataset reads as it was written, for every value: the kind, the filesystem, the
/// access, the capacity and the free space with all of their 64 bits, the free objects, and both strings.
pub proof fn law_every_field_of_a_storage_is_read(
    kind: u16,
    filesystem: u16,
    access: u16,
    capacity: u64,
    free: u64,
    objects: u32,
    description: Seq<char>,
    label: Seq<char>,
    rest: Seq<u8>,
    payload: &[u8],
    r: Result<StorageInfo, ParseError>,
)
    requires
        utf16::encode(description).len() <= 254,
        utf16::encode(label).len() <= 254,
        payload@ == bytes::u16_bytes(kind) + bytes::u16_bytes(filesystem) + bytes::u16_bytes(access)
            + bytes::u64_bytes(capacity) + bytes::u64_bytes(free) + bytes::u32_bytes(objects)
            + reader::string_bytes(description) + reader::string_bytes(label) + rest,
        call_ensures(StorageInfo::parse, (payload,), r),
    ensures
        r is Ok,
        r->Ok_0.storage_type == kind,
        r->Ok_0.filesystem_type == filesystem,
        r->Ok_0.access_capability == access,
        r->Ok_0.max_capacity == capacity,
        r->Ok_0.free_space_in_bytes == free,
        r->Ok_0.free_space_in_objects == objects,
        r->Ok_0.storage_description@ == description,
        r->Ok_0.volume_identifier@ == label,
{
    lemma_written(
        kind,
        filesystem,
        access,
        capacity,
        free,
        objects,
        description,
        label,
        rest,
        payload@,
    );
}

proof fn lemma_written(
    kind: u16,
    filesystem: u16,
    access: u16,
    capacity: u64,
    free: u64,
    objects: u32,
    description: Seq<char>,
    label: Seq<char>,
    rest: Seq<u8>,
    p: Seq<u8>,
)
    requires
        utf16::encode(description).len() <= 254,
        utf16::encode(label).len() <= 254,
        p == bytes::u16_bytes(kind) + bytes::u16_bytes(filesystem) + bytes::u16_bytes(access)
            + bytes::u64_bytes(capacity) + bytes::u64_bytes(free) + bytes::u32_bytes(objects)
            + reader::string_bytes(description) + reader::string_bytes(label) + rest,
    ensures
        bytes::u16_at(p, 0) == kind,
        bytes::u16_at(p, 2) == filesystem,
        bytes::u16_at(p, 4) == access,
        bytes::u64_at(p, 6) == capacity,
        bytes::u64_at(p, 14) == free,
        bytes::u32_at(p, 22) == objects,
        storage_fault(p) is None,
        reader::string_at(p, 26, "storage_description") == Ok::<Seq<char>, ParseError>(description),
        reader::string_at(p, label_at(p), "volume_identifier") == Ok::<Seq<char>, ParseError>(label),
{
    let front = bytes::u16_bytes(kind) + bytes::u16_bytes(filesystem) + bytes::u16_bytes(access)
        + bytes::u64_bytes(capacity) + bytes::u64_bytes(free) + bytes::u32_bytes(objects);
    let g = reader::string_bytes(description);
    let h = reader::string_bytes(label);
    bytes::lemma_join(front + g, h, rest);
    bytes::lemma_join(front, g, h + rest);
    assert(front.len() == 26) by {
        bytes::law_u64_round_trip(Seq::empty(), capacity, Seq::empty());
        bytes::law_u64_round_trip(Seq::empty(), free, Seq::empty());
    }
    lemma_labels(front, description, label, rest, p);
    lemma_numbers(kind, filesystem, access, capacity, free, objects, g + (h + rest), p);
}

proof fn lemma_numbers(
    kind: u16,
    filesystem: u16,
    access: u16,
    capacity: u64,
    free: u64,
    objects: u32,
    rest: Seq<u8>,
    p: Seq<u8>,
)
    requires
        p == bytes::u16_bytes(kind) + bytes::u16_bytes(filesystem) + bytes::u16_bytes(access)
            + bytes::u64_bytes(capacity) + bytes::u64_bytes(free) + bytes::u32_bytes(objects)
            + rest,
    ensures
        bytes::u16_at(p, 0) == kind,
        bytes::u16_at(p, 2) == filesystem,
        bytes::u16_at(p, 4) == access,
        bytes::u64_at(p, 6) == capacity,
        bytes::u64_at(p, 14) == free,
        bytes::u32_at(p, 22) == objects,
{
    let a = bytes::u16_bytes(kind);
    let b = bytes::u16_bytes(filesystem);
    let c = bytes::u16_bytes(access);
    let d = bytes::u64_bytes(capacity);
    let e = bytes::u64_bytes(free);
    let f = bytes::u32_bytes(objects);
    let none = Seq::<u8>::empty();
    bytes::law_u64_round_trip(none, capacity, none);
    bytes::law_u64_round_trip(none, free, none);
    assert(p == a + b + c + d + e + (f + rest)) by {
        bytes::lemma_join(a + b + c + d + e, f, rest);
    }
    assert(p == a + b + c + d + (e + (f + rest))) by {
        bytes::lemma_join(a + b + c + d, e, f + rest);
    }
    assert(p == a + b + c + (d + (e + (f + rest)))) by {
        bytes::lemma_join(a + b + c, d, e + (f + rest));
    }
    lemma_kinds(kind, filesystem, access, d + (e + (f + rest)), p);
    assert(bytes::u64_at(p, 6) == capacity) by {
        bytes::law_u64_round_trip(a + b + c, capacity, e + (f + rest));
    }
    assert(bytes::u64_at(p, 14) == free) by {
        bytes::law_u64_round_trip(a + b + c + d, free, f + rest);
    }
    assert(bytes::u32_at(p, 22) == objects) by {
        bytes::lemma_u32_round_trip(a + b + c + d + e, objects, rest);
    }
}

proof fn lemma_kinds(kind: u16, filesystem: u16, access: u16, rest: Seq<u8>, p: Seq<u8>)
    requires
        p == bytes::u16_bytes(kind) + bytes::u16_bytes(filesystem) + bytes::u16_bytes(access) + rest,
    ensures
        bytes::u16_at(p, 0) == kind,
        bytes::u16_at(p, 2) == filesystem,
        bytes::u16_at(p, 4) == access,
{
    let a = bytes::u16_bytes(kind);
    let b = bytes::u16_bytes(filesystem);
    let c = bytes::u16_bytes(access);
    assert(bytes::u16_at(p, 0) == kind) by {
        bytes::lemma_u16_round_trip(Seq::empty(), kind, b + c + rest);
        assert(p =~= Seq::<u8>::empty() + a + (b + c + rest));
    }
    assert(bytes::u16_at(p, 2) == filesystem) by {
        bytes::lemma_u16_round_trip(a, filesystem, c + rest);
        assert(p =~= a + b + (c + rest));
    }
    assert(bytes::u16_at(p, 4) == access) by {
        bytes::lemma_u16_round_trip(a + b, access, rest);
    }
}

proof fn lemma_labels(
    front: Seq<u8>,
    description: Seq<char>,
    label: Seq<char>,
    rest: Seq<u8>,
    p: Seq<u8>,
)
    requires
        front.len() == 26,
        p == front + reader::string_bytes(description) + (reader::string_bytes(label) + rest),
        utf16::encode(description).len() <= 254,
        utf16::encode(label).len() <= 254,
    ensures
        storage_fault(p) is None,
        reader::string_at(p, 26, "storage_description") == Ok::<Seq<char>, ParseError>(description),
        reader::string_at(p, label_at(p), "volume_identifier") == Ok::<Seq<char>, ParseError>(label),
{
    reveal_with_fuel(reader::missing_field, 7);
    let g = reader::string_bytes(description);
    let h = reader::string_bytes(label);
    reader::law_string_round_trip(front, description, h + rest, "storage_description");
    assert(p == (front + g) + h + rest) by {
        bytes::lemma_join(front + g, h, rest);
    }
    reader::law_string_round_trip(front + g, label, rest, "volume_identifier");
}

/// A storage dataset can be read where it has the 26 bytes of its fixed fields and two whole strings behind
/// them.
pub proof fn law_which_storages_can_be_read(p: Seq<u8>)
    ensures
        storage_fault(p) is None <==> {
            &&& p.len() >= 26
            &&& reader::string_at(p, 26, "storage_description") is Ok
            &&& reader::string_at(p, reader::after_string(p, 26), "volume_identifier") is Ok
        },
{
    reveal_with_fuel(reader::missing_field, 7);
}

} // verus!
