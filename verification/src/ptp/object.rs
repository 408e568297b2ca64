//! The `ObjectInfo` dataset.

use vstd::prelude::*;

use crate::ptp::bytes;
use crate::ptp::error::ParseError;
use crate::ptp::reader;
use crate::ptp::reader::Reader;
use crate::ptp::utf16;

verus! {

/// What a device reports about one object.
///
/// `GetObjectInfo` answers with this dataset. An object is a file or a folder.
#[derive(Debug, Clone, PartialEq, Eq)]
pub struct ObjectInfo {
    /// The storage that holds the object.
    pub storage_id: u32,
    /// The format code. 0x3001 means a folder.
    pub object_format: u16,
    /// A device sets the field to stop a host from a write.
    pub protection_status: u16,
    /// The size of the object, in bytes.
    pub compressed_size: u32,
    /// The width of an image, in pixels. The field is 0 for a file.
    pub image_pix_width: u32,
    /// The height of an image, in pixels. The field is 0 for a file.
    pub image_pix_height: u32,
    /// The handle of the folder that holds the object.
    pub parent_object: u32,
    /// The kind of folder. The field is 0 for a file.
    pub association_type: u16,
    /// The name of the object.
    pub filename: String,
    /// The date the device made the object.
    pub capture_date: String,
    /// The date a writer last changed the object.
    pub modification_date: String,
}

/// The fields of fixed width that start the dataset.
pub open spec fn object_fields() -> Seq<(&'static str, int)> {
    seq![
        ("storage_id", 4),
        ("object_format", 2),
        ("protection_status", 2),
        ("compressed_size", 4),
        ("thumb_format", 2),
        ("thumb_compressed_size", 4),
        ("thumb_pix_width", 4),
        ("thumb_pix_height", 4),
        ("image_pix_width", 4),
        ("image_pix_height", 4),
        ("image_bit_depth", 4),
        ("parent_object", 4),
        ("association_type", 2),
        ("association_desc", 4),
        ("sequence_number", 4),
    ]
}

/// The first fault of a dataset. A date that is absent or damaged is no fault.
pub open spec fn object_fault(p: Seq<u8>) -> Option<ParseError> {
    reader::first_fault(
        reader::missing_field(object_fields(), 0, p.len() as int),
        reader::string_fault(p, 52, "filename"),
    )
}

/// Where the first date stands.
pub open spec fn capture_date_at(p: Seq<u8>) -> int {
    reader::after_string(p, 52)
}

/// Where the second date stands.
pub open spec fn modification_date_at(p: Seq<u8>) -> int {
    reader::after_string(p, capture_date_at(p))
}

/// The bytes that announce an object to a device.
pub open spec fn object_bytes(
    storage_id: u32,
    parent: u32,
    name: Seq<char>,
    size: u32,
    is_folder: bool,
) -> Seq<u8> {
    fixed_bytes(storage_id, parent, size, is_folder) + reader::string_bytes(name) + seq![
        0u8,
        0u8,
        0u8,
    ]
}

/// The fields of fixed width in the bytes that announce an object.
pub open spec fn fixed_bytes(storage_id: u32, parent: u32, size: u32, is_folder: bool) -> Seq<u8> {
    bytes::u32_bytes(storage_id) + bytes::u16_bytes(
        if is_folder {
            crate::ptp::format::ASSOCIATION
        } else {
            crate::ptp::format::UNDEFINED
        },
    ) + bytes::u16_bytes(0) + bytes::u32_bytes(size) + zeros(26) + bytes::u32_bytes(parent)
        + bytes::u16_bytes(
        if is_folder {
            1
        } else {
            0
        },
    ) + zeros(8)
}

/// A run of zero bytes.
pub open spec fn zeros(n: nat) -> Seq<u8> {
    Seq::new(n, |i: int| 0u8)
}

impl ObjectInfo {
    /// Whether the value is what the dataset says.
    pub open spec fn reads(self, p: Seq<u8>) -> bool {
        &&& self.storage_id == bytes::u32_at(p, 0)
        &&& self.object_format == bytes::u16_at(p, 4)
        &&& self.protection_status == bytes::u16_at(p, 6)
        &&& self.compressed_size == bytes::u32_at(p, 8)
        &&& self.image_pix_width == bytes::u32_at(p, 26)
        &&& self.image_pix_height == bytes::u32_at(p, 30)
        &&& self.parent_object == bytes::u32_at(p, 38)
        &&& self.association_type == bytes::u16_at(p, 42)
        &&& Ok::<Seq<char>, ParseError>(self.filename@) == reader::string_at(p, 52, "filename")
        &&& self.capture_date@ == reader::string_or_empty(p, capture_date_at(p))
        &&& self.modification_date@ == reader::string_or_empty(p, modification_date_at(p))
    }

    /// Tells you if the object is a folder.
    pub fn is_folder(&self) -> (r: bool)
        ensures
            r == (self.object_format == crate::ptp::format::ASSOCIATION),
    {
        self.object_format == crate::ptp::format::ASSOCIATION
    }

    /// Builds an `ObjectInfo` dataset for `SendObjectInfo`.
    ///
    /// The dataset tells the device the name, the size and the folder of the object that the next
    /// operation sends. The size must be correct, because the device reads exactly that count of
    /// bytes.
    pub fn build_for_send(
        storage_id: u32,
        parent: u32,
        name: &str,
        size: u32,
        is_folder: bool,
    ) -> (r: Vec<u8>)
        ensures
            r@ == object_bytes(storage_id, parent, name@, size, is_folder),
    {
        let mut out: Vec<u8> = Vec::new();
        bytes::push_u32(&mut out, storage_id);
        let code: u16 = if is_folder {
            crate::ptp::format::ASSOCIATION
        } else {
            crate::ptp::format::UNDEFINED
        };
        bytes::push_u16(&mut out, code);
        bytes::push_u16(&mut out, 0);
        bytes::push_u32(&mut out, size);
        // The thumbnail fields, and then the image fields: a host sets none of them.
        push_zeros(&mut out, 26);
        bytes::push_u32(&mut out, parent);
        // A folder is an association, and a file is not.
        let association: u16 = if is_folder {
            1
        } else {
            0
        };
        bytes::push_u16(&mut out, association);
        // The association description and the sequence number.
        push_zeros(&mut out, 8);
        proof {
            assert(out@ =~= fixed_bytes(storage_id, parent, size, is_folder));
        }
        reader::push_string(&mut out, name);
        // The two dates and the keywords, all of them empty strings.
        push_zeros(&mut out, 3);
        proof {
            assert(out@ =~= object_bytes(storage_id, parent, name@, size, is_folder));
        }
        out
    }

    /// Reads an `ObjectInfo` dataset from the payload of a data container.
    ///
    /// A device can stop the dataset after the name, so the function gives an empty string for a
    /// date the device does not send.
    pub fn parse(payload: &[u8]) -> (r: Result<Self, ParseError>)
        ensures
            match r {
                Ok(info) => object_fault(payload@) is None && info.reads(payload@),
                Err(e) => object_fault(payload@) == Some(e),
            },
    {
        proof {
            reveal_with_fuel(reader::missing_field, 16);
        }
        let mut r = Reader::new(payload);
        let storage_id: u32 = r.read_u32("storage_id")?;
        let object_format: u16 = r.read_u16("object_format")?;
        let protection_status: u16 = r.read_u16("protection_status")?;
        let compressed_size: u32 = r.read_u32("compressed_size")?;
        // The thumbnail fields have no use here, and must still move the cursor.
        r.read_u16("thumb_format")?;
        r.read_u32("thumb_compressed_size")?;
        r.read_u32("thumb_pix_width")?;
        r.read_u32("thumb_pix_height")?;
        let image_pix_width: u32 = r.read_u32("image_pix_width")?;
        let image_pix_height: u32 = r.read_u32("image_pix_height")?;
        r.read_u32("image_bit_depth")?;
        let parent_object: u32 = r.read_u32("parent_object")?;
        let association_type: u16 = r.read_u16("association_type")?;
        r.read_u32("association_desc")?;
        r.read_u32("sequence_number")?;
        let filename = r.read_string("filename")?;
        // A device can stop here. An absent string is not a fault.
        let capture_date = r.read_string_or_empty("capture_date");
        let modification_date = r.read_string_or_empty("modification_date");
        Ok(
            ObjectInfo {
                storage_id,
                object_format,
                protection_status,
                compressed_size,
                image_pix_width,
                image_pix_height,
                parent_object,
                association_type,
                filename,
                capture_date,
                modification_date,
            },
        )
    }
}

/// Appends zero bytes.
fn push_zeros(out: &mut Vec<u8>, n: usize)
    ensures
        final(out)@ == old(out)@ + zeros(n as nat),
{
    let mut i: usize = 0;
    while i < n
        invariant
            i <= n,
            out@ == old(out)@ + zeros(i as nat),
        decreases n - i,
    {
        out.push(0);
        proof {
            assert(out@ =~= old(out)@ + zeros((i + 1) as nat));
        }
        i = i + 1;
    }
}

/// The bytes that announce an object fit in one small container, however long the name is.
pub proof fn lemma_object_bytes_are_few(
    storage_id: u32,
    parent: u32,
    name: Seq<char>,
    size: u32,
    is_folder: bool,
)
    ensures
        object_bytes(storage_id, parent, name, size, is_folder).len() <= 566,
{
    lemma_fixed_bytes(storage_id, parent, size, is_folder);
    reader::law_a_string_keeps_the_longest_front(name);
    bytes::lemma_u16_list_len(utf16::encode(reader::fitting(name)));
}

/// An announced object reads back with the storage, the folder, the size and the name that were
/// given, with empty dates and with every other field zero. No name makes a dataset that cannot be read: of
/// a name that is too long for the wire, the longest front of whole characters that fits reads back.
pub proof fn law_object_round_trip(
    storage_id: u32,
    parent: u32,
    name: Seq<char>,
    size: u32,
    is_folder: bool,
    info: ObjectInfo,
)
    ensures
        ({
            let p = object_bytes(storage_id, parent, name, size, is_folder);
            &&& object_fault(p) is None
            &&& info.reads(p) ==> {
                &&& info.storage_id == storage_id
                &&& info.parent_object == parent
                &&& reader::is_longest_that_fits(info.filename@, name)
                &&& utf16::encode(name).len() <= reader::MAX_STRING_UNITS ==> info.filename@ == name
                &&& info.compressed_size == size
                &&& info.object_format == if is_folder {
                    crate::ptp::format::ASSOCIATION
                } else {
                    crate::ptp::format::UNDEFINED
                }
                &&& info.association_type == if is_folder {
                    1u16
                } else {
                    0u16
                }
                &&& info.protection_status == 0
                &&& info.image_pix_width == 0
                &&& info.image_pix_height == 0
                &&& info.capture_date@.len() == 0
                &&& info.modification_date@.len() == 0
            }
        }),
{
    let p = object_bytes(storage_id, parent, name, size, is_folder);
    let fixed = fixed_bytes(storage_id, parent, size, is_folder);
    let tail = reader::string_bytes(name) + seq![0u8, 0u8, 0u8];
    lemma_fixed_bytes(storage_id, parent, size, is_folder);
    assert(p =~= fixed + tail);
    lemma_fields_fit(p.len() as int);
    reader::law_string_reads_what_was_kept(fixed, name, seq![0u8, 0u8, 0u8], "filename");
    reader::law_a_string_keeps_the_longest_front(name);
    let at = capture_date_at(p);
    assert(at == p.len() - 3);
    assert(p[at] == 0 && p[at + 1] == 0);
}

proof fn lemma_fields_fit(len: int)
    requires
        len >= 52,
    ensures
        reader::missing_field(object_fields(), 0, len) is None,
{
    reveal_with_fuel(reader::missing_field, 16);
}

proof fn lemma_fixed_bytes(storage_id: u32, parent: u32, size: u32, is_folder: bool)
    ensures
        ({
            let f = fixed_bytes(storage_id, parent, size, is_folder);
            &&& f.len() == 52
            &&& bytes::u32_at(f, 0) == storage_id
            &&& bytes::u16_at(f, 4) == if is_folder {
                crate::ptp::format::ASSOCIATION
            } else {
                crate::ptp::format::UNDEFINED
            }
            &&& bytes::u16_at(f, 6) == 0
            &&& bytes::u32_at(f, 8) == size
            &&& bytes::u32_at(f, 26) == 0
            &&& bytes::u32_at(f, 30) == 0
            &&& bytes::u32_at(f, 38) == parent
            &&& bytes::u16_at(f, 42) == if is_folder {
                1u16
            } else {
                0u16
            }
        }),
{
    let code = if is_folder {
        crate::ptp::format::ASSOCIATION
    } else {
        crate::ptp::format::UNDEFINED
    };
    let association = if is_folder {
        1u16
    } else {
        0u16
    };
    let front = bytes::u32_bytes(storage_id) + bytes::u16_bytes(code) + bytes::u16_bytes(0)
        + bytes::u32_bytes(size);
    let middle = zeros(26);
    let back = bytes::u32_bytes(parent) + bytes::u16_bytes(association) + zeros(8);
    let f = fixed_bytes(storage_id, parent, size, is_folder);
    assert(f =~= front + middle + back);
    assert(front.len() == 12 && back.len() == 14);
    assert forall|i: int| 12 <= i < 38 implies f[i] == 0 by {
        assert(f[i] == middle[i - 12]);
    }
    lemma_front(storage_id, code, size);
    assert(f.subrange(0, 12) =~= front);
    lemma_same_bytes(f, 0, front);
    lemma_back(parent, association);
    assert(f.subrange(38, 52) =~= back);
    lemma_same_bytes(f, 38, back);
}

proof fn lemma_front(storage_id: u32, code: u16, size: u32)
    ensures
        ({
            let front = bytes::u32_bytes(storage_id) + bytes::u16_bytes(code) + bytes::u16_bytes(0)
                + bytes::u32_bytes(size);
            &&& bytes::u32_at(front, 0) == storage_id
            &&& bytes::u16_at(front, 4) == code
            &&& bytes::u16_at(front, 6) == 0
            &&& bytes::u32_at(front, 8) == size
        }),
{
    let a = bytes::u32_bytes(storage_id);
    let b = bytes::u16_bytes(code);
    let c = bytes::u16_bytes(0);
    let d = bytes::u32_bytes(size);
    let front = a + b + c + d;
    bytes::lemma_u32_round_trip(Seq::empty(), storage_id, b + c + d);
    assert(front =~= Seq::empty() + a + (b + c + d));
    bytes::lemma_u16_round_trip(a, code, c + d);
    assert(front =~= a + b + (c + d));
    bytes::lemma_u16_round_trip(a + b, 0, d);
    bytes::lemma_u32_round_trip(a + b + c, size, Seq::empty());
    assert(front =~= a + b + c + d + Seq::empty());
}

proof fn lemma_back(parent: u32, association: u16)
    ensures
        ({
            let back = bytes::u32_bytes(parent) + bytes::u16_bytes(association) + zeros(8);
            &&& bytes::u32_at(back, 0) == parent
            &&& bytes::u16_at(back, 4) == association
        }),
{
    let a = bytes::u32_bytes(parent);
    let b = bytes::u16_bytes(association);
    let back = a + b + zeros(8);
    bytes::lemma_u32_round_trip(Seq::empty(), parent, b + zeros(8));
    assert(back =~= Seq::empty() + a + (b + zeros(8)));
    bytes::lemma_u16_round_trip(a, association, zeros(8));
}

proof fn lemma_same_bytes(s: Seq<u8>, at: int, part: Seq<u8>)
    requires
        0 <= at <= s.len() - part.len(),
        s.subrange(at, at + part.len()) == part,
    ensures
        forall|i: int| 0 <= i <= part.len() - 2 ==> #[trigger] bytes::u16_at(part, i)
            == bytes::u16_at(s, at + i),
        forall|i: int| 0 <= i <= part.len() - 4 ==> #[trigger] bytes::u32_at(part, i)
            == bytes::u32_at(s, at + i),
{
    assert forall|i: int| 0 <= i < part.len() implies part[i] == s[at + i] by {
        assert(s.subrange(at, at + part.len())[i] == s[at + i]);
    }
}

/// A dataset can be read where it has the 52 bytes of its fixed fields and a whole, well formed name behind
/// them. What is missing behind the name is no fault.
pub proof fn law_which_datasets_can_be_read(p: Seq<u8>)
    ensures
        object_fault(p) is None <==> p.len() >= 52 && reader::string_at(p, 52, "filename") is Ok,
        p.len() >= 52 && reader::string_at(p, 52, "filename") is Err ==> object_fault(p) == Some(
            reader::string_at(p, 52, "filename")->Err_0,
        ),
{
    reveal_with_fuel(reader::missing_field, 16);
}

/// Every field of a dataset reads as it was written, whatever the other fields hold: the storage, the format,
/// the protection, the size, the size of the image, the parent, the association, the name and both dates.
pub proof fn law_every_field_of_an_object_is_read(
    p: Seq<u8>,
    info: ObjectInfo,
    r: Result<ObjectInfo, ParseError>,
    payload: &[u8],
)
    requires
        p == payload@,
        call_ensures(ObjectInfo::parse, (payload,), r),
        r == Ok::<ObjectInfo, ParseError>(info),
    ensures
        p.len() >= 53,
        info.storage_id == p[0] + 256 * (p[1] + 256 * (p[2] + 256 * p[3])),
        info.object_format == p[4] + 256 * p[5],
        info.protection_status == p[6] + 256 * p[7],
        info.compressed_size == p[8] + 256 * (p[9] + 256 * (p[10] + 256 * p[11])),
        info.image_pix_width == p[26] + 256 * (p[27] + 256 * (p[28] + 256 * p[29])),
        info.image_pix_height == p[30] + 256 * (p[31] + 256 * (p[32] + 256 * p[33])),
        info.parent_object == p[38] + 256 * (p[39] + 256 * (p[40] + 256 * p[41])),
        info.association_type == p[42] + 256 * p[43],
        reader::string_at(p, 52, "filename") == Ok::<Seq<char>, ParseError>(info.filename@),
{
    law_which_datasets_can_be_read(p);
    bytes::law_numbers_are_little_endian(p, 0);
    bytes::law_numbers_are_little_endian(p, 8);
    bytes::law_numbers_are_little_endian(p, 26);
    bytes::law_numbers_are_little_endian(p, 30);
    bytes::law_numbers_are_little_endian(p, 38);
}

/// The strings behind the fixed fields read as they were written, in the order name, capture date and
/// modification date. A date that is not there is empty.
pub proof fn law_the_strings_of_an_object_are_read(
    fixed: Seq<u8>,
    name: Seq<char>,
    captured: Seq<char>,
    modified: Seq<char>,
    rest: Seq<u8>,
    info: ObjectInfo,
)
    requires
        fixed.len() == 52,
        utf16::encode(name).len() <= 254,
        utf16::encode(captured).len() <= 254,
        utf16::encode(modified).len() <= 254,
    ensures
        ({
            let head = fixed + reader::string_bytes(name);
            let one = head + reader::string_bytes(captured);
            let two = one + reader::string_bytes(modified) + rest;
            &&& object_fault(two) is None
            &&& info.reads(two) ==> info.filename@ == name && info.capture_date@ == captured
                && info.modification_date@ == modified
            &&& info.reads(one) ==> info.filename@ == name && info.capture_date@ == captured
                && info.modification_date@.len() == 0
            &&& info.reads(head) ==> info.filename@ == name && info.capture_date@.len() == 0
                && info.modification_date@.len() == 0
        }),
{
    let n = reader::string_bytes(name);
    let c = reader::string_bytes(captured);
    let m = reader::string_bytes(modified);
    let head = fixed + n;
    let one = head + c;
    let two = one + m + rest;
    law_which_datasets_can_be_read(two);
    reader::law_string_round_trip(fixed, name, c + m + rest, "filename");
    assert(two =~= fixed + n + (c + m + rest));
    reader::law_string_round_trip(head, captured, m + rest, "");
    assert(two =~= head + c + (m + rest));
    reader::law_string_round_trip(one, modified, rest, "");
    reader::law_string_round_trip(fixed, name, c, "filename");
    assert(one =~= fixed + n + c);
    reader::law_string_round_trip(head, captured, Seq::empty(), "");
    assert(one =~= head + c + Seq::<u8>::empty());
    reader::law_string_round_trip(fixed, name, Seq::empty(), "filename");
    assert(head =~= fixed + n + Seq::<u8>::empty());
    reader::law_a_string_must_be_whole(one, one.len() as int, "");
    reader::law_a_string_must_be_whole(head, head.len() as int, "");
}

/// What an announced object reads as, field by field.
pub proof fn lemma_an_announced_object_reads(
    storage_id: u32,
    parent: u32,
    name: Seq<char>,
    size: u32,
    is_folder: bool,
)
    ensures
        ({
            let p = object_bytes(storage_id, parent, name, size, is_folder);
            let read = reader::string_at(p, 52, "filename");
            &&& object_fault(p) is None
            &&& bytes::u16_at(p, 4) == if is_folder {
                0x3001u16
            } else {
                0x3000u16
            }
            &&& bytes::u32_at(p, 8) == size
            &&& read is Ok
            &&& reader::is_longest_that_fits(read->Ok_0, name)
            &&& utf16::encode(name).len() <= 254 ==> read->Ok_0 == name
        }),
{
    let p = object_bytes(storage_id, parent, name, size, is_folder);
    let fixed = fixed_bytes(storage_id, parent, size, is_folder);
    let tail = reader::string_bytes(name) + seq![0u8, 0u8, 0u8];
    lemma_fixed_bytes(storage_id, parent, size, is_folder);
    assert(p =~= fixed + tail);
    lemma_fields_fit(p.len() as int);
    reader::law_string_reads_what_was_kept(fixed, name, seq![0u8, 0u8, 0u8], "filename");
    reader::law_a_string_keeps_the_longest_front(name);
    if utf16::encode(name).len() <= 254 {
        reader::law_string_round_trip(fixed, name, seq![0u8, 0u8, 0u8], "filename");
    }
}

/// An object is a folder exactly where its format is 0x3001, and the dataset that announces it reads as what was
/// announced.
pub proof fn law_an_announced_object_reads_back(
    storage_id: u32,
    parent: u32,
    name: &str,
    size: u32,
    is_folder: bool,
    v: Vec<u8>,
    payload: &[u8],
    r: Result<ObjectInfo, ParseError>,
    f: bool,
)
    requires
        call_ensures(ObjectInfo::build_for_send, (storage_id, parent, name, size, is_folder), v),
        payload@ == v@,
        call_ensures(ObjectInfo::parse, (payload,), r),
        r is Ok ==> call_ensures(ObjectInfo::is_folder, (&r->Ok_0,), f),
    ensures
        r is Ok,
        r->Ok_0.storage_id == storage_id,
        r->Ok_0.parent_object == parent,
        r->Ok_0.compressed_size == size,
        f == is_folder,
        r->Ok_0.object_format == if is_folder {
            0x3001u16
        } else {
            0x3000u16
        },
        utf16::encode(name@).len() <= 254 ==> r->Ok_0.filename@ == name@,
{
    lemma_an_announced_object_reads(storage_id, parent, name@, size, is_folder);
    law_object_round_trip(storage_id, parent, name@, size, is_folder, r->Ok_0);
}

} // verus!
