//! The `DeviceInfo` dataset.

use vstd::prelude::*;

use crate::ptp::bytes;
use crate::ptp::error::ParseError;
use crate::ptp::op;
use crate::ptp::reader;
use crate::ptp::utf16;
use crate::ptp::reader::Reader;

verus! {

/// What a device says about itself.
///
/// `GetDeviceInfo` answers with this dataset. The list of operations decides what a filesystem on
/// top of the device can do.
#[derive(Debug, Clone, PartialEq, Eq)]
pub struct DeviceInfo {
    /// The version of the standard the device follows, times 100.
    pub standard_version: u16,
    /// The vendor that defines the extra operations.
    pub vendor_extension_id: u32,
    /// The version of the vendor extension, times 100.
    pub vendor_extension_version: u16,
    /// A description of the vendor extension.
    pub vendor_extension_desc: String,
    /// The operations the device supports.
    pub operations_supported: Vec<u16>,
    /// The events the device sends.
    pub events_supported: Vec<u16>,
    /// The device properties the device holds.
    pub device_properties_supported: Vec<u16>,
    /// The formats the device can make.
    pub capture_formats: Vec<u16>,
    /// The formats the device holds.
    pub image_formats: Vec<u16>,
    /// The maker of the device.
    pub manufacturer: String,
    /// The model of the device.
    pub model: String,
    /// The version of the device.
    pub device_version: String,
    /// The serial number of the device.
    pub serial_number: String,
}

/// The fields of fixed width that start the dataset.
pub open spec fn device_fields() -> Seq<(&'static str, int)> {
    seq![
        ("standard_version", 2),
        ("vendor_extension_id", 4),
        ("vendor_extension_version", 2),
    ]
}

/// Where list number `n` of the five lists of codes stands: the operations, the events, the device
/// properties, the capture formats and the image formats.
pub open spec fn list_at(p: Seq<u8>, n: nat) -> int
    decreases n,
{
    if n == 0 {
        reader::after_string(p, 8) + 2
    } else {
        reader::after_array(p, list_at(p, (n - 1) as nat), 2)
    }
}

/// Where string number `n` of the four strings that close the dataset stands: the maker, the
/// model, the version and the serial number.
pub open spec fn closing_string_at(p: Seq<u8>, n: nat) -> int
    decreases n,
{
    if n == 0 {
        list_at(p, 5)
    } else {
        reader::after_string(p, closing_string_at(p, (n - 1) as nat))
    }
}

/// The first fault of a dataset. A closing string that is absent or damaged is no fault.
pub open spec fn device_fault(p: Seq<u8>) -> Option<ParseError> {
    reader::first_fault(
        reader::missing_field(device_fields(), 0, p.len() as int),
        reader::first_fault(
            reader::string_fault(p, 8, "vendor_extension_desc"),
            reader::first_fault(
                reader::missing_field(
                    seq![("functional_mode", 2)],
                    reader::after_string(p, 8),
                    p.len() as int,
                ),
                list_fault(p),
            ),
        ),
    )
}

/// The first fault of the five lists of codes.
pub open spec fn list_fault(p: Seq<u8>) -> Option<ParseError> {
    reader::first_fault(
        reader::array_fault(p, list_at(p, 0), 2, "operations_supported"),
        reader::first_fault(
            reader::array_fault(p, list_at(p, 1), 2, "events_supported"),
            reader::first_fault(
                reader::array_fault(p, list_at(p, 2), 2, "device_properties_supported"),
                reader::first_fault(
                    reader::array_fault(p, list_at(p, 3), 2, "capture_formats"),
                    reader::array_fault(p, list_at(p, 4), 2, "image_formats"),
                ),
            ),
        ),
    )
}

impl DeviceInfo {
    /// Whether the value is what the dataset says.
    pub open spec fn reads(self, p: Seq<u8>) -> bool {
        &&& self.standard_version == bytes::u16_at(p, 0)
        &&& self.vendor_extension_id == bytes::u32_at(p, 2)
        &&& self.vendor_extension_version == bytes::u16_at(p, 6)
        &&& Ok::<Seq<char>, ParseError>(self.vendor_extension_desc@) == reader::string_at(
            p,
            8,
            "vendor_extension_desc",
        )
        &&& self.operations_supported@ == reader::u16_array_at(p, list_at(p, 0))
        &&& self.events_supported@ == reader::u16_array_at(p, list_at(p, 1))
        &&& self.device_properties_supported@ == reader::u16_array_at(p, list_at(p, 2))
        &&& self.capture_formats@ == reader::u16_array_at(p, list_at(p, 3))
        &&& self.image_formats@ == reader::u16_array_at(p, list_at(p, 4))
        &&& self.manufacturer@ == reader::string_or_empty(p, closing_string_at(p, 0))
        &&& self.model@ == reader::string_or_empty(p, closing_string_at(p, 1))
        &&& self.device_version@ == reader::string_or_empty(p, closing_string_at(p, 2))
        &&& self.serial_number@ == reader::string_or_empty(p, closing_string_at(p, 3))
    }

    /// Tells you if the device supports an operation.
    pub fn supports(&self, code: u16) -> (r: bool)
        ensures
            r == self.operations_supported@.contains(code),
    {
        let mut i: usize = 0;
        while i < self.operations_supported.len()
            invariant
                i <= self.operations_supported@.len(),
                forall|k: int| 0 <= k < i ==> self.operations_supported@[k] != code,
            decreases self.operations_supported@.len() - i,
        {
            if self.operations_supported[i] == code {
                return true;
            }
            i = i + 1;
        }
        false
    }

    /// Tells you if the host can read part of an object.
    ///
    /// A filesystem needs this answer. A read asks for an offset and a length, and `GetObject`
    /// gives the whole object.
    pub fn can_read_part(&self) -> (r: bool)
        ensures
            r == (self.operations_supported@.contains(op::GET_PARTIAL_OBJECT)
                || self.operations_supported@.contains(op::GET_PARTIAL_OBJECT_64)),
    {
        self.supports(op::GET_PARTIAL_OBJECT) || self.supports(op::GET_PARTIAL_OBJECT_64)
    }

    /// Tells you if the host can write a new object.
    pub fn can_write(&self) -> (r: bool)
        ensures
            r == (self.operations_supported@.contains(op::SEND_OBJECT_INFO)
                && self.operations_supported@.contains(op::SEND_OBJECT)),
    {
        self.supports(op::SEND_OBJECT_INFO) && self.supports(op::SEND_OBJECT)
    }

    /// Tells you if the host can remove an object.
    pub fn can_delete(&self) -> (r: bool)
        ensures
            r == self.operations_supported@.contains(op::DELETE_OBJECT),
    {
        self.supports(op::DELETE_OBJECT)
    }

    /// Tells you if the host can read a folder in one operation.
    pub fn has_fast_listing(&self) -> (r: bool)
        ensures
            r == self.operations_supported@.contains(op::GET_OBJECT_PROP_LIST),
    {
        self.supports(op::GET_OBJECT_PROP_LIST)
    }

    /// Reads a `DeviceInfo` dataset from the payload of a data container.
    pub fn parse(payload: &[u8]) -> (r: Result<Self, ParseError>)
        ensures
            match r {
                Ok(info) => device_fault(payload@) is None && info.reads(payload@),
                Err(e) => device_fault(payload@) == Some(e),
            },
    {
        proof {
            reveal_with_fuel(reader::missing_field, 4);
            reveal_with_fuel(list_at, 6);
            reveal_with_fuel(closing_string_at, 4);
        }
        let mut r = Reader::new(payload);
        let standard_version: u16 = r.read_u16("standard_version")?;
        let vendor_extension_id: u32 = r.read_u32("vendor_extension_id")?;
        let vendor_extension_version: u16 = r.read_u16("vendor_extension_version")?;
        let vendor_extension_desc = r.read_string("vendor_extension_desc")?;
        // The functional mode has no use here, and must still move the cursor.
        r.read_u16("functional_mode")?;
        let operations_supported = r.read_u16_array("operations_supported")?;
        let events_supported = r.read_u16_array("events_supported")?;
        let device_properties_supported = r.read_u16_array("device_properties_supported")?;
        let capture_formats = r.read_u16_array("capture_formats")?;
        let image_formats = r.read_u16_array("image_formats")?;
        let manufacturer = r.read_string_or_empty("manufacturer");
        let model = r.read_string_or_empty("model");
        let device_version = r.read_string_or_empty("device_version");
        let serial_number = r.read_string_or_empty("serial_number");
        Ok(
            DeviceInfo {
                standard_version,
                vendor_extension_id,
                vendor_extension_version,
                vendor_extension_desc,
                operations_supported,
                events_supported,
                device_properties_supported,
                capture_formats,
                image_formats,
                manufacturer,
                model,
                device_version,
                serial_number,
            },
        )
    }
}

/// An array of 16 bit values as a dataset holds it: the count, and then the values.
pub open spec fn array_bytes(v: Seq<u16>) -> Seq<u8> {
    bytes::u32_bytes(v.len() as u32) + bytes::u16_list_bytes(v)
}

/// What stands at the start of a device dataset, up to its lists.
pub open spec fn opening_bytes(
    version: u16,
    extension: u32,
    extension_version: u16,
    description: Seq<char>,
    mode: u16,
) -> Seq<u8> {
    bytes::u16_bytes(version) + bytes::u32_bytes(extension) + bytes::u16_bytes(extension_version)
        + reader::string_bytes(description) + bytes::u16_bytes(mode)
}

proof fn lemma_shift(a: Seq<u8>, b: Seq<u8>, c: Seq<u8>, d: Seq<u8>)
    ensures
        a + b + (c + d) == (a + b) + c + d,
{
    assert(a + b + (c + d) =~= (a + b) + c + d);
}

proof fn lemma_list(before: Seq<u8>, v: Seq<u16>, after: Seq<u8>, p: Seq<u8>, field: &'static str)
    requires
        p == before + array_bytes(v) + after,
        v.len() <= u32::MAX,
    ensures
        reader::array_fault(p, before.len() as int, 2, field) is None,
        reader::u16_array_at(p, before.len() as int) == v,
        reader::after_array(p, before.len() as int, 2) == before.len() + array_bytes(v).len(),
{
    reader::law_u16_array_round_trip(before, v, after, field);
    assert(before + bytes::u32_bytes(v.len() as u32) + bytes::u16_list_bytes(v) + after =~= p);
}

/// Every list and every string of a device dataset reads as it was written, however long the lists are: the
/// operations, the events, the properties, the formats of captures and of images, the maker, the model, the
/// version and the serial number.
#[verifier::rlimit(40)]
pub proof fn law_every_list_of_a_device_is_read(
    opening: Seq<u8>,
    operations: Seq<u16>,
    events: Seq<u16>,
    properties: Seq<u16>,
    captures: Seq<u16>,
    images: Seq<u16>,
    maker: Seq<char>,
    model: Seq<char>,
    version: Seq<char>,
    serial: Seq<char>,
    rest: Seq<u8>,
    p: Seq<u8>,
    info: DeviceInfo,
)
    requires
        operations.len() <= u32::MAX,
        events.len() <= u32::MAX,
        properties.len() <= u32::MAX,
        captures.len() <= u32::MAX,
        images.len() <= u32::MAX,
        utf16::encode(maker).len() <= 254,
        utf16::encode(model).len() <= 254,
        utf16::encode(version).len() <= 254,
        utf16::encode(serial).len() <= 254,
        p == opening + array_bytes(operations) + (array_bytes(events) + (array_bytes(properties) + (
        array_bytes(captures) + (array_bytes(images) + (reader::string_bytes(maker) + (
        reader::string_bytes(model) + (reader::string_bytes(version) + (reader::string_bytes(serial)
            + rest)))))))),
        list_at(p, 0) == opening.len(),
    ensures
        list_fault(p) is None,
        info.reads(p) ==> {
            &&& info.operations_supported@ == operations
            &&& info.events_supported@ == events
            &&& info.device_properties_supported@ == properties
            &&& info.capture_formats@ == captures
            &&& info.image_formats@ == images
            &&& info.manufacturer@ == maker
            &&& info.model@ == model
            &&& info.device_version@ == version
            &&& info.serial_number@ == serial
        },
{
    reveal_with_fuel(list_at, 6);
    reveal_with_fuel(closing_string_at, 4);
    let s4 = reader::string_bytes(serial) + rest;
    let s3 = reader::string_bytes(version) + s4;
    let s2 = reader::string_bytes(model) + s3;
    let s1 = reader::string_bytes(maker) + s2;
    let l5 = array_bytes(images) + s1;
    let l4 = array_bytes(captures) + l5;
    let l3 = array_bytes(properties) + l4;
    let l2 = array_bytes(events) + l3;
    let a1 = opening + array_bytes(operations);
    let a2 = a1 + array_bytes(events);
    let a3 = a2 + array_bytes(properties);
    let a4 = a3 + array_bytes(captures);
    let a5 = a4 + array_bytes(images);
    let b1 = a5 + reader::string_bytes(maker);
    let b2 = b1 + reader::string_bytes(model);
    let b3 = b2 + reader::string_bytes(version);
    lemma_list(opening, operations, l2, p, "operations_supported");
    lemma_shift(opening, array_bytes(operations), array_bytes(events), l3);
    lemma_list(a1, events, l3, p, "events_supported");
    lemma_shift(a1, array_bytes(events), array_bytes(properties), l4);
    lemma_list(a2, properties, l4, p, "device_properties_supported");
    lemma_shift(a2, array_bytes(properties), array_bytes(captures), l5);
    lemma_list(a3, captures, l5, p, "capture_formats");
    lemma_shift(a3, array_bytes(captures), array_bytes(images), s1);
    lemma_list(a4, images, s1, p, "image_formats");
    lemma_shift(a4, array_bytes(images), reader::string_bytes(maker), s2);
    reader::law_string_round_trip(a5, maker, s2, "");
    lemma_shift(a5, reader::string_bytes(maker), reader::string_bytes(model), s3);
    reader::law_string_round_trip(b1, model, s3, "");
    lemma_shift(b1, reader::string_bytes(model), reader::string_bytes(version), s4);
    reader::law_string_round_trip(b2, version, s4, "");
    lemma_shift(b2, reader::string_bytes(version), reader::string_bytes(serial), rest);
    reader::law_string_round_trip(b3, serial, rest, "");
}

/// The start of a device dataset reads as it was written: the version, the vendor extension with all of its 32
/// bits, its version, and its description. The lists start behind the functional mode.
pub proof fn law_the_start_of_a_device_is_read(
    version: u16,
    extension: u32,
    extension_version: u16,
    description: Seq<char>,
    mode: u16,
    rest: Seq<u8>,
    info: DeviceInfo,
)
    requires
        utf16::encode(description).len() <= 254,
    ensures
        ({
            let head = opening_bytes(version, extension, extension_version, description, mode);
            let p = head + rest;
            &&& list_at(p, 0) == head.len()
            &&& device_fault(p) == list_fault(p)
            &&& info.reads(p) ==> {
                &&& info.standard_version == version
                &&& info.vendor_extension_id == extension
                &&& info.vendor_extension_version == extension_version
                &&& info.vendor_extension_desc@ == description
            }
        }),
{
    let a = bytes::u16_bytes(version);
    let b = bytes::u32_bytes(extension);
    let c = bytes::u16_bytes(extension_version);
    let d = reader::string_bytes(description);
    let e = bytes::u16_bytes(mode);
    let p = opening_bytes(version, extension, extension_version, description, mode) + rest;
    assert(p == a + b + c + d + (e + rest)) by {
        bytes::lemma_join(a + b + c + d, e, rest);
    }
    assert(p == a + b + c + (d + (e + rest))) by {
        bytes::lemma_join(a + b + c, d, e + rest);
    }
    lemma_start(version, extension, extension_version, d + (e + rest), p);
    lemma_described(a + b + c, description, e, rest, p);
}

proof fn lemma_start(version: u16, extension: u32, extension_version: u16, rest: Seq<u8>, p: Seq<u8>)
    requires
        p == bytes::u16_bytes(version) + bytes::u32_bytes(extension) + bytes::u16_bytes(
            extension_version,
        ) + rest,
    ensures
        bytes::u16_at(p, 0) == version,
        bytes::u32_at(p, 2) == extension,
        bytes::u16_at(p, 6) == extension_version,
{
    let a = bytes::u16_bytes(version);
    let b = bytes::u32_bytes(extension);
    let c = bytes::u16_bytes(extension_version);
    assert(bytes::u16_at(p, 0) == version) by {
        bytes::lemma_u16_round_trip(Seq::empty(), version, b + c + rest);
        assert(p =~= Seq::<u8>::empty() + a + (b + c + rest));
    }
    assert(bytes::u32_at(p, 2) == extension) by {
        bytes::lemma_u32_round_trip(a, extension, c + rest);
        assert(p =~= a + b + (c + rest));
    }
    assert(bytes::u16_at(p, 6) == extension_version) by {
        bytes::lemma_u16_round_trip(a + b, extension_version, rest);
    }
}

proof fn lemma_described(front: Seq<u8>, description: Seq<char>, mode: Seq<u8>, rest: Seq<u8>, p: Seq<u8>)
    requires
        front.len() == 8,
        mode.len() == 2,
        p == front + reader::string_bytes(description) + (mode + rest),
        utf16::encode(description).len() <= 254,
    ensures
        reader::string_at(p, 8, "vendor_extension_desc") == Ok::<Seq<char>, ParseError>(description),
        list_at(p, 0) == 10 + reader::string_bytes(description).len(),
        device_fault(p) == list_fault(p),
{
    reveal_with_fuel(reader::missing_field, 4);
    reader::law_string_round_trip(front, description, mode + rest, "vendor_extension_desc");
}

/// A closing string that is not there, or that is damaged, is empty, and is no fault.
pub proof fn law_missing_names_are_no_fault(p: Seq<u8>, info: DeviceInfo)
    requires
        device_fault(p) is None,
        info.reads(p),
        closing_string_at(p, 0) == p.len(),
    ensures
        info.manufacturer@.len() == 0,
{
    reader::law_a_string_must_be_whole(p, p.len() as int, "");
}

/// What a device can do is what stands in its list of operations: reading a part needs 0x101b or 0x95c1,
/// writing needs 0x100c and 0x100d, removing needs 0x100b, and the fast listing needs 0x9805.
pub proof fn law_operations_say_what_a_device_can_do(
    info: &DeviceInfo,
    code: u16,
    has: bool,
    part: bool,
    write: bool,
    delete: bool,
    fast: bool,
)
    requires
        call_ensures(DeviceInfo::supports, (info, code), has),
        call_ensures(DeviceInfo::can_read_part, (info,), part),
        call_ensures(DeviceInfo::can_write, (info,), write),
        call_ensures(DeviceInfo::can_delete, (info,), delete),
        call_ensures(DeviceInfo::has_fast_listing, (info,), fast),
    ensures
        ({
            let ops = info.operations_supported@;
            &&& has <==> exists|i: int| 0 <= i < ops.len() && #[trigger] ops[i] == code
            &&& part <==> ops.contains(0x101b) || ops.contains(0x95c1)
            &&& write <==> ops.contains(0x100c) && ops.contains(0x100d)
            &&& delete <==> ops.contains(0x100b)
            &&& fast <==> ops.contains(0x9805)
        }),
{
}

/// A device dataset can be read exactly where the fixed fields, the description, the functional mode and all five
/// lists are whole. What follows the lists is no fault, whatever it is.
pub proof fn law_which_devices_can_be_read(p: Seq<u8>)
    ensures
        ({
            let a = reader::after_string(p, 8) + 2;
            let b = reader::after_array(p, a, 2);
            let c = reader::after_array(p, b, 2);
            let d = reader::after_array(p, c, 2);
            let e = reader::after_array(p, d, 2);
            device_fault(p) is None <==> {
                &&& p.len() >= 8
                &&& reader::string_at(p, 8, "vendor_extension_desc") is Ok
                &&& a <= p.len()
                &&& reader::array_fault(p, a, 2, "operations_supported") is None
                &&& reader::array_fault(p, b, 2, "events_supported") is None
                &&& reader::array_fault(p, c, 2, "device_properties_supported") is None
                &&& reader::array_fault(p, d, 2, "capture_formats") is None
                &&& reader::array_fault(p, e, 2, "image_formats") is None
            }
        }),
{
    reveal_with_fuel(reader::missing_field, 4);
    reveal_with_fuel(list_at, 6);
}

} // verus!
