//! USB descriptors.
//!
//! A configuration descriptor is a list of smaller descriptors. Each one starts with a length byte
//! and a type byte. An endpoint descriptor belongs to the interface descriptor before it. A class
//! descriptor can stand between them, and does not change the owner of an endpoint.

use vstd::prelude::*;
use vstd::string::*;

use crate::ptp::bytes;
use crate::text;

verus! {

/// The descriptor type of a configuration.
pub const TYPE_CONFIGURATION: u8 = 0x02;
/// The descriptor type of an interface.
pub const TYPE_INTERFACE: u8 = 0x04;
/// The descriptor type of an endpoint.
pub const TYPE_ENDPOINT: u8 = 0x05;

/// The interface class for MTP. The USB standard calls the class "still imaging".
pub const MTP_CLASS: u8 = 0x06;
/// The interface subclass for MTP.
pub const MTP_SUBCLASS: u8 = 0x01;
/// The interface protocol for MTP.
pub const MTP_PROTOCOL: u8 = 0x01;

/// The interface class for adb. The class is a vendor class.
pub const ADB_CLASS: u8 = 0xff;
/// The interface subclass for adb.
pub const ADB_SUBCLASS: u8 = 0x42;
/// The interface protocol for adb.
pub const ADB_PROTOCOL: u8 = 0x01;

/// The interface class of a device that names its MTP interface instead of classing it.
pub const VENDOR_CLASS: u8 = 0xff;
/// The subclass of such an interface.
pub const VENDOR_SUBCLASS: u8 = 0xff;
/// The protocol of such an interface.
pub const VENDOR_PROTOCOL: u8 = 0x00;

/// The endpoint transfer type for bulk.
pub const TRANSFER_BULK: u8 = 0x02;
/// The endpoint transfer type for interrupt.
pub const TRANSFER_INTERRUPT: u8 = 0x03;

/// The direction bit of an endpoint address. A set bit means the endpoint sends data to the host.
pub const DIRECTION_IN: u8 = 0x80;

/// The descriptor type of the binary device object store.
pub const TYPE_BOS: u8 = 0x0f;
/// The descriptor type of one device capability.
pub const TYPE_DEVICE_CAPABILITY: u8 = 0x10;
/// The capability type for super speed.
pub const CAPABILITY_SUPER_SPEED: u8 = 0x03;
/// The capability type for super speed plus.
pub const CAPABILITY_SUPER_SPEED_PLUS: u8 = 0x0a;
/// The bit of `wSpeedsSupported` that means super speed.
pub const SPEED_BIT_SUPER: u16 = 0x0008;

/// A fault in a byte buffer that holds a descriptor.
#[derive(Debug, Clone, Copy, PartialEq, Eq, Structural)]
pub enum DescriptorError {
    /// The buffer is smaller than the descriptor needs.
    TooShort { need: usize, got: usize },
    /// The type byte does not hold the expected value.
    WrongType { expected: u8, got: u8 },
    /// A descriptor gives a length of 0. A walk that advances by the length would never advance.
    ZeroLength { at: usize },
    /// A descriptor declares more bytes than the buffer holds.
    RunsPastEnd { at: usize, need: usize, got: usize },
    /// An endpoint descriptor comes before any interface descriptor.
    EndpointWithoutInterface,
    /// The device gives no MTP interface.
    NoMtpInterface,
    /// The MTP interface does not hold both bulk endpoints.
    IncompleteMtpEndpoints { has_in: bool, has_out: bool },
}

impl DescriptorError {
    /// The text of the fault.
    pub open spec fn text(self) -> Seq<char> {
        match self {
            DescriptorError::TooShort { need, got } => "the descriptor needs "@ + text::decimal(
                need as nat,
            ) + " bytes, and the buffer holds "@ + text::decimal(got as nat),
            DescriptorError::WrongType { expected, got } => "the descriptor type is 0x"@
                + text::hex(got as nat, 2) + ", and the expected type is 0x"@ + text::hex(
                expected as nat,
                2,
            ),
            DescriptorError::ZeroLength { at } => "the descriptor at offset "@ + text::decimal(
                at as nat,
            ) + " gives a length of 0"@,
            DescriptorError::RunsPastEnd { at, need, got } => "the descriptor at offset "@
                + text::decimal(at as nat) + " needs "@ + text::decimal(need as nat)
                + " bytes, and "@ + text::decimal(got as nat) + " bytes remain"@,
            DescriptorError::EndpointWithoutInterface => "an endpoint comes before any interface"@,
            DescriptorError::NoMtpInterface => "the device gives no MTP interface"@,
            DescriptorError::IncompleteMtpEndpoints { has_in, has_out } =>
                "the MTP interface needs two bulk endpoints. Data from device: "@ + text::truth(
                has_in,
            ) + ". Data to device: "@ + text::truth(has_out),
        }
    }

    /// Gives the text of the fault.
    pub fn message(&self) -> (r: String)
        ensures
            r@ == self.text(),
    {
        let mut s: String = String::new();
        match *self {
            DescriptorError::TooShort { need, got } => {
                s.append("the descriptor needs ");
                text::push_decimal(&mut s, need as u128);
                s.append(" bytes, and the buffer holds ");
                text::push_decimal(&mut s, got as u128);
            },
            DescriptorError::WrongType { expected, got } => {
                s.append("the descriptor type is 0x");
                text::push_hex(&mut s, got as u64, 2);
                s.append(", and the expected type is 0x");
                text::push_hex(&mut s, expected as u64, 2);
            },
            DescriptorError::ZeroLength { at } => {
                s.append("the descriptor at offset ");
                text::push_decimal(&mut s, at as u128);
                s.append(" gives a length of 0");
            },
            DescriptorError::RunsPastEnd { at, need, got } => {
                s.append("the descriptor at offset ");
                text::push_decimal(&mut s, at as u128);
                s.append(" needs ");
                text::push_decimal(&mut s, need as u128);
                s.append(" bytes, and ");
                text::push_decimal(&mut s, got as u128);
                s.append(" bytes remain");
            },
            DescriptorError::EndpointWithoutInterface => {
                s.append("an endpoint comes before any interface");
            },
            DescriptorError::NoMtpInterface => {
                s.append("the device gives no MTP interface");
            },
            DescriptorError::IncompleteMtpEndpoints { has_in, has_out } => {
                s.append("the MTP interface needs two bulk endpoints. Data from device: ");
                text::push_truth(&mut s, has_in);
                s.append(". Data to device: ");
                text::push_truth(&mut s, has_out);
            },
        }
        s
    }
}

/// One endpoint of an interface.
#[derive(Debug, Clone, Copy, PartialEq, Eq, Structural)]
pub struct Endpoint {
    /// The endpoint address. Bit 0x80 means the endpoint sends to the host.
    pub address: u8,
    /// The transfer type. 2 means bulk, and 3 means interrupt.
    pub transfer_type: u8,
    /// The largest packet the endpoint accepts, in bytes.
    pub max_packet_size: u16,
}

impl Endpoint {
    /// Whether the endpoint sends data to the host.
    pub open spec fn sends_to_host(self) -> bool {
        self.address >= DIRECTION_IN
    }

    /// Tells you if the endpoint sends data to the host.
    pub fn is_in(&self) -> (r: bool)
        ensures
            r == self.sends_to_host(),
    {
        let address: u8 = self.address;
        proof {
            assert((address & 0x80 != 0) == (address >= 0x80)) by (bit_vector);
        }
        address & DIRECTION_IN != 0
    }

    /// Tells you if the endpoint is a bulk endpoint.
    pub fn is_bulk(&self) -> (r: bool)
        ensures
            r == (self.transfer_type == TRANSFER_BULK),
    {
        self.transfer_type == TRANSFER_BULK
    }

    /// Tells you if the endpoint is an interrupt endpoint.
    pub fn is_interrupt(&self) -> (r: bool)
        ensures
            r == (self.transfer_type == TRANSFER_INTERRUPT),
    {
        self.transfer_type == TRANSFER_INTERRUPT
    }
}

/// One interface of a configuration.
#[derive(Debug, Clone, PartialEq, Eq)]
pub struct Interface {
    /// The number of the interface.
    pub number: u8,
    /// The alternate setting of the interface.
    pub alternate_setting: u8,
    /// The class of the interface.
    pub class: u8,
    /// The subclass of the interface.
    pub subclass: u8,
    /// The protocol of the interface.
    pub protocol: u8,
    /// The index of the string that names the interface. A value of 0 means that the device gives
    /// no name.
    pub string_index: u8,
    /// The endpoints of the interface, in the order the device gives them.
    pub endpoints: Vec<Endpoint>,
}

/// What an [`Interface`] holds.
pub struct InterfaceView {
    pub number: u8,
    pub alternate_setting: u8,
    pub class: u8,
    pub subclass: u8,
    pub protocol: u8,
    pub string_index: u8,
    pub endpoints: Seq<Endpoint>,
}

impl View for Interface {
    type V = InterfaceView;

    open spec fn view(&self) -> InterfaceView {
        InterfaceView {
            number: self.number,
            alternate_setting: self.alternate_setting,
            class: self.class,
            subclass: self.subclass,
            protocol: self.protocol,
            string_index: self.string_index,
            endpoints: self.endpoints@,
        }
    }
}

impl InterfaceView {
    /// Whether the class says that the interface carries MTP.
    pub open spec fn mtp(self) -> bool {
        self.class == MTP_CLASS && self.subclass == MTP_SUBCLASS && self.protocol == MTP_PROTOCOL
    }

    /// Whether the interface carries adb.
    pub open spec fn adb(self) -> bool {
        self.class == ADB_CLASS && self.subclass == ADB_SUBCLASS && self.protocol == ADB_PROTOCOL
    }

    /// Whether the interface can carry MTP under a name.
    pub open spec fn vendor_mtp_candidate(self) -> bool {
        self.class == VENDOR_CLASS && self.subclass == VENDOR_SUBCLASS && self.protocol
            == VENDOR_PROTOCOL && self.string_index != 0
    }
}

impl Interface {
    /// Tells you if the interface carries MTP.
    pub fn is_mtp(&self) -> (r: bool)
        ensures
            r == self@.mtp(),
    {
        self.class == MTP_CLASS && self.subclass == MTP_SUBCLASS && self.protocol == MTP_PROTOCOL
    }

    /// Tells you if the interface carries adb.
    ///
    /// A device that shows adb but shows no MTP is an Android device that is not in file transfer
    /// mode. The difference matters for a fault report.
    pub fn is_adb(&self) -> (r: bool)
        ensures
            r == self@.adb(),
    {
        self.class == ADB_CLASS && self.subclass == ADB_SUBCLASS && self.protocol == ADB_PROTOCOL
    }

    /// Tells you if the interface carries MTP when its name says so.
    ///
    /// A vendor class means that the standard does not define the interface, so the class alone
    /// is not enough.
    pub fn is_vendor_mtp_candidate(&self) -> (r: bool)
        ensures
            r == self@.vendor_mtp_candidate(),
    {
        self.class == VENDOR_CLASS && self.subclass == VENDOR_SUBCLASS && self.protocol
            == VENDOR_PROTOCOL && self.string_index != 0
    }
}

/// The views of interfaces.
pub open spec fn interface_views(interfaces: Seq<Interface>) -> Seq<InterfaceView> {
    interfaces.map_values(|i: Interface| i@)
}

/// A parsed configuration descriptor.
#[derive(Debug, Clone, PartialEq, Eq)]
pub struct ConfigDescriptor {
    /// The size of the full descriptor, in bytes.
    pub total_length: u16,
    /// The count of interfaces the header declares.
    pub num_interfaces: u8,
    /// The value that selects this configuration.
    pub configuration_value: u8,
    /// The interfaces, in the order the device gives them.
    pub interfaces: Vec<Interface>,
}

/// The smaller of the size of the buffer and the size that the header declares.
pub open spec fn walk_end(buf: Seq<u8>) -> int {
    let total = bytes::u16_at(buf, 2) as int;
    if buf.len() < total {
        buf.len() as int
    } else {
        total
    }
}

/// The fault of a descriptor at position `at` that a walk cannot step over.
pub open spec fn step_fault(buf: Seq<u8>, at: int, end: int) -> Option<DescriptorError> {
    if buf[at] == 0 {
        Some(DescriptorError::ZeroLength { at: at as usize })
    } else if at + buf[at] > end {
        Some(
            DescriptorError::RunsPastEnd {
                at: at as usize,
                need: buf[at] as usize,
                got: (end - at) as usize,
            },
        )
    } else {
        None
    }
}

/// The interface that the descriptor at position `at` announces.
pub open spec fn interface_at(buf: Seq<u8>, at: int) -> InterfaceView {
    InterfaceView {
        number: buf[at + 2],
        alternate_setting: buf[at + 3],
        class: buf[at + 5],
        subclass: buf[at + 6],
        protocol: buf[at + 7],
        string_index: buf[at + 8],
        endpoints: Seq::empty(),
    }
}

/// The endpoint that the descriptor at position `at` announces. The low two bits of the attributes
/// hold the transfer type.
pub open spec fn endpoint_at(buf: Seq<u8>, at: int) -> Endpoint {
    Endpoint {
        address: buf[at + 2],
        transfer_type: buf[at + 3] % 4,
        max_packet_size: bytes::u16_at(buf, at + 4),
    }
}

/// Interfaces whose last one has one more endpoint.
pub open spec fn with_endpoint(seen: Seq<InterfaceView>, ep: Endpoint) -> Seq<InterfaceView> {
    seen.drop_last().push(
        InterfaceView { endpoints: seen.last().endpoints.push(ep), ..seen.last() },
    )
}

/// The interfaces after the descriptor at position `at`, where `seen` stand before it. A descriptor
/// that is neither an interface nor an endpoint changes nothing.
pub open spec fn after_descriptor(seen: Seq<InterfaceView>, buf: Seq<u8>, at: int) -> Result<
    Seq<InterfaceView>,
    DescriptorError,
> {
    if buf[at + 1] == TYPE_INTERFACE {
        if buf[at] < 9 {
            Err(DescriptorError::TooShort { need: 9, got: buf[at] as usize })
        } else {
            Ok(seen.push(interface_at(buf, at)))
        }
    } else if buf[at + 1] == TYPE_ENDPOINT {
        if buf[at] < 7 {
            Err(DescriptorError::TooShort { need: 7, got: buf[at] as usize })
        } else if seen.len() == 0 {
            Err(DescriptorError::EndpointWithoutInterface)
        } else {
            Ok(with_endpoint(seen, endpoint_at(buf, at)))
        }
    } else {
        Ok(seen)
    }
}

/// The interfaces that the descriptors from position `at` up to `end` add to those seen before.
pub open spec fn interfaces_from(
    buf: Seq<u8>,
    at: int,
    end: int,
    seen: Seq<InterfaceView>,
) -> Result<Seq<InterfaceView>, DescriptorError>
    decreases end - at,
{
    if at + 2 > end {
        Ok(seen)
    } else {
        match step_fault(buf, at, end) {
            Some(e) => Err(e),
            None => match after_descriptor(seen, buf, at) {
                Err(e) => Err(e),
                Ok(more) => interfaces_from(buf, at + buf[at], end, more),
            },
        }
    }
}

/// The interfaces of a configuration descriptor.
pub open spec fn config_interfaces(buf: Seq<u8>) -> Result<Seq<InterfaceView>, DescriptorError> {
    if buf.len() < 9 {
        Err(DescriptorError::TooShort { need: 9, got: buf.len() as usize })
    } else if buf[1] != TYPE_CONFIGURATION {
        Err(DescriptorError::WrongType { expected: TYPE_CONFIGURATION, got: buf[1] })
    } else if buf[0] == 0 {
        Err(DescriptorError::ZeroLength { at: 0 })
    } else {
        interfaces_from(buf, buf[0] as int, walk_end(buf), Seq::empty())
    }
}

impl ConfigDescriptor {
    /// Reads a configuration descriptor from a byte buffer.
    ///
    /// The walk advances by the length of each descriptor. A length of 0 gives an error, so the
    /// walk always advances and always stops. It reads no further than the buffer, and no further
    /// than the header declares.
    pub fn parse(buf: &[u8]) -> (r: Result<Self, DescriptorError>)
        ensures
            match r {
                Ok(cfg) => {
                    &&& config_interfaces(buf@) == Ok::<Seq<InterfaceView>, DescriptorError>(
                        interface_views(cfg.interfaces@),
                    )
                    &&& cfg.total_length == bytes::u16_at(buf@, 2)
                    &&& cfg.num_interfaces == buf@[4]
                    &&& cfg.configuration_value == buf@[5]
                },
                Err(e) => config_interfaces(buf@) == Err::<Seq<InterfaceView>, DescriptorError>(e),
            },
    {
        if buf.len() < 9 {
            return Err(DescriptorError::TooShort { need: 9, got: buf.len() });
        }
        if buf[1] != TYPE_CONFIGURATION {
            return Err(
                DescriptorError::WrongType { expected: TYPE_CONFIGURATION, got: buf[1] },
            );
        }
        let total_length: u16 = bytes::read_u16_at(buf, 2);
        let end: usize = if buf.len() < total_length as usize {
            buf.len()
        } else {
            total_length as usize
        };
        let mut interfaces: Vec<Interface> = Vec::new();
        let mut pos: usize = buf[0] as usize;
        if pos == 0 {
            return Err(DescriptorError::ZeroLength { at: 0 });
        }
        proof {
            assert(interface_views(interfaces@) =~= Seq::empty());
        }
        while pos + 2 <= end
            invariant
                end <= buf@.len(),
                end <= 0xffff,
                pos <= end + 255,
                config_interfaces(buf@) == interfaces_from(
                    buf@,
                    pos as int,
                    end as int,
                    interface_views(interfaces@),
                ),
            decreases end + 255 - pos,
        {
            let len: usize = buf[pos] as usize;
            let kind: u8 = buf[pos + 1];
            if len == 0 {
                return Err(DescriptorError::ZeroLength { at: pos });
            }
            if pos + len > end {
                return Err(DescriptorError::RunsPastEnd { at: pos, need: len, got: end - pos });
            }
            let ghost seen = interface_views(interfaces@);
            if kind == TYPE_INTERFACE {
                if len < 9 {
                    return Err(DescriptorError::TooShort { need: 9, got: len });
                }
                let iface = Interface {
                    number: buf[pos + 2],
                    alternate_setting: buf[pos + 3],
                    class: buf[pos + 5],
                    subclass: buf[pos + 6],
                    protocol: buf[pos + 7],
                    string_index: buf[pos + 8],
                    endpoints: Vec::new(),
                };
                interfaces.push(iface);
                proof {
                    assert(interface_views(interfaces@) =~= seen.push(interface_at(buf@, pos as int)));
                }
            } else if kind == TYPE_ENDPOINT {
                if len < 7 {
                    return Err(DescriptorError::TooShort { need: 7, got: len });
                }
                let attributes: u8 = buf[pos + 3];
                proof {
                    assert(attributes & 0x03 == attributes % 4) by (bit_vector);
                }
                let ep = Endpoint {
                    address: buf[pos + 2],
                    transfer_type: attributes & 0x03,
                    max_packet_size: bytes::read_u16_at(buf, pos + 4),
                };
                match interfaces.pop() {
                    Some(owner) => {
                        let mut owner = owner;
                        owner.endpoints.push(ep);
                        interfaces.push(owner);
                    },
                    None => {
                        return Err(DescriptorError::EndpointWithoutInterface);
                    },
                }
                proof {
                    assert(interface_views(interfaces@) =~= with_endpoint(
                        seen,
                        endpoint_at(buf@, pos as int),
                    ));
                }
            }
            // `len` is at least 1 here, so the position always grows.
            pos = pos + len;
        }
        Ok(
            ConfigDescriptor {
                total_length,
                num_interfaces: buf[4],
                configuration_value: buf[5],
                interfaces,
            },
        )
    }
}

/// The MTP interface of a device, and the endpoints the interface needs.
#[derive(Debug, Clone, Copy, PartialEq, Eq)]
pub struct MtpInterface {
    /// The number of the interface.
    pub interface_number: u8,
    /// The alternate setting of the interface.
    pub alternate_setting: u8,
    /// The class of the interface.
    pub class: u8,
    /// The subclass of the interface.
    pub subclass: u8,
    /// The protocol of the interface.
    pub protocol: u8,
    /// The endpoint that sends data to the host.
    pub bulk_in: u8,
    /// The endpoint that sends data to the device.
    pub bulk_out: u8,
    /// The endpoint that reports an event. Some devices give no such endpoint.
    pub interrupt_in: Option<u8>,
    /// The largest packet the bulk endpoints accept, in bytes.
    pub max_packet_size: u16,
}

/// The first endpoint of this transfer type and direction, from position `i` on.
pub open spec fn first_endpoint(
    endpoints: Seq<Endpoint>,
    transfer_type: u8,
    to_host: bool,
    i: int,
) -> Option<Endpoint>
    decreases endpoints.len() - i,
{
    if i >= endpoints.len() {
        None
    } else if endpoints[i].transfer_type == transfer_type && endpoints[i].sends_to_host()
        == to_host {
        Some(endpoints[i])
    } else {
        first_endpoint(endpoints, transfer_type, to_host, i + 1)
    }
}

/// An interface with the endpoints that MTP needs, each one the first of its kind.
pub open spec fn with_mtp_endpoints(iface: InterfaceView) -> Result<MtpInterface, DescriptorError> {
    let bulk_in = first_endpoint(iface.endpoints, TRANSFER_BULK, true, 0);
    let bulk_out = first_endpoint(iface.endpoints, TRANSFER_BULK, false, 0);
    let interrupt_in = first_endpoint(iface.endpoints, TRANSFER_INTERRUPT, true, 0);
    if bulk_in is Some && bulk_out is Some {
        Ok(
            MtpInterface {
                interface_number: iface.number,
                alternate_setting: iface.alternate_setting,
                class: iface.class,
                subclass: iface.subclass,
                protocol: iface.protocol,
                bulk_in: bulk_in->0.address,
                bulk_out: bulk_out->0.address,
                interrupt_in: match interrupt_in {
                    Some(e) => Some(e.address),
                    None => None,
                },
                max_packet_size: bulk_in->0.max_packet_size,
            },
        )
    } else {
        Err(
            DescriptorError::IncompleteMtpEndpoints {
                has_in: bulk_in is Some,
                has_out: bulk_out is Some,
            },
        )
    }
}

/// The first interface whose class says MTP, from position `i` on.
pub open spec fn first_classed(ifaces: Seq<InterfaceView>, i: int) -> Option<InterfaceView>
    decreases ifaces.len() - i,
{
    if i >= ifaces.len() {
        None
    } else if ifaces[i].mtp() {
        Some(ifaces[i])
    } else {
        first_classed(ifaces, i + 1)
    }
}

/// The MTP interface of a configuration, by class alone.
pub open spec fn mtp_by_class(ifaces: Seq<InterfaceView>) -> Result<MtpInterface, DescriptorError> {
    match first_classed(ifaces, 0) {
        Some(iface) => with_mtp_endpoints(iface),
        None => Err(DescriptorError::NoMtpInterface),
    }
}

/// The name that was read for a string index, from position `i` of the names on. A device that does
/// not answer has no name.
pub open spec fn name_read(names: Seq<(u8, Option<String>)>, index: u8, i: int) -> Option<Seq<char>>
    decreases names.len() - i,
{
    if i >= names.len() {
        None
    } else if names[i].0 == index {
        match names[i].1 {
            Some(s) => Some(s@),
            None => None,
        }
    } else {
        name_read(names, index, i + 1)
    }
}

/// The name that marks an MTP interface of a vendor class.
pub open spec fn mtp_name() -> Seq<char> {
    "MTP"@
}

/// Whether an interface of a vendor class carries the name of MTP.
pub open spec fn named_mtp(iface: InterfaceView, names: Seq<(u8, Option<String>)>) -> bool {
    iface.vendor_mtp_candidate() && name_read(names, iface.string_index, 0) == Some(mtp_name())
}

/// The first interface whose name says MTP, from position `i` on.
pub open spec fn first_named(
    ifaces: Seq<InterfaceView>,
    names: Seq<(u8, Option<String>)>,
    i: int,
) -> Option<InterfaceView>
    decreases ifaces.len() - i,
{
    if i >= ifaces.len() {
        None
    } else if named_mtp(ifaces[i], names) {
        Some(ifaces[i])
    } else {
        first_named(ifaces, names, i + 1)
    }
}

/// The MTP interface of a configuration, by class or else by name.
pub open spec fn mtp_by_class_or_name(
    ifaces: Seq<InterfaceView>,
    names: Seq<(u8, Option<String>)>,
) -> Result<MtpInterface, DescriptorError> {
    match first_classed(ifaces, 0) {
        Some(iface) => with_mtp_endpoints(iface),
        None => match first_named(ifaces, names, 0) {
            Some(iface) => with_mtp_endpoints(iface),
            None => Err(DescriptorError::NoMtpInterface),
        },
    }
}

/// Finds the first endpoint of this transfer type and direction.
fn find_endpoint(endpoints: &Vec<Endpoint>, transfer_type: u8, to_host: bool) -> (r: Option<
    Endpoint,
>)
    ensures
        r == first_endpoint(endpoints@, transfer_type, to_host, 0),
{
    let mut i: usize = 0;
    while i < endpoints.len()
        invariant
            i <= endpoints@.len(),
            first_endpoint(endpoints@, transfer_type, to_host, 0) == first_endpoint(
                endpoints@,
                transfer_type,
                to_host,
                i as int,
            ),
        decreases endpoints@.len() - i,
    {
        let e = endpoints[i];
        if e.transfer_type == transfer_type && e.is_in() == to_host {
            return Some(e);
        }
        i = i + 1;
    }
    None
}

/// Finds the first interface whose class says MTP.
fn find_classed(interfaces: &Vec<Interface>) -> (r: Option<usize>)
    ensures
        match r {
            Some(i) => i < interfaces@.len() && first_classed(interface_views(interfaces@), 0)
                == Some(interfaces@[i as int]@),
            None => first_classed(interface_views(interfaces@), 0) is None,
        },
{
    let mut i: usize = 0;
    while i < interfaces.len()
        invariant
            i <= interfaces@.len(),
            first_classed(interface_views(interfaces@), 0) == first_classed(
                interface_views(interfaces@),
                i as int,
            ),
        decreases interfaces@.len() - i,
    {
        if interfaces[i].is_mtp() {
            return Some(i);
        }
        i = i + 1;
    }
    None
}

/// Whether the name that was read for a string index is the name of MTP.
fn is_named_mtp(names: &[(u8, Option<String>)], index: u8) -> (r: bool)
    ensures
        r == (name_read(names@, index, 0) == Some(mtp_name())),
{
    let mut i: usize = 0;
    while i < names.len()
        invariant
            i <= names@.len(),
            name_read(names@, index, 0) == name_read(names@, index, i as int),
        decreases names@.len() - i,
    {
        if names[i].0 == index {
            return match &names[i].1 {
                Some(s) => text::same(s.as_str(), "MTP"),
                None => false,
            };
        }
        i = i + 1;
    }
    false
}

/// Finds the first interface whose name says MTP.
fn find_named(interfaces: &Vec<Interface>, names: &[(u8, Option<String>)]) -> (r: Option<usize>)
    ensures
        match r {
            Some(i) => i < interfaces@.len() && first_named(
                interface_views(interfaces@),
                names@,
                0,
            ) == Some(interfaces@[i as int]@),
            None => first_named(interface_views(interfaces@), names@, 0) is None,
        },
{
    let mut i: usize = 0;
    while i < interfaces.len()
        invariant
            i <= interfaces@.len(),
            first_named(interface_views(interfaces@), names@, 0) == first_named(
                interface_views(interfaces@),
                names@,
                i as int,
            ),
        decreases interfaces@.len() - i,
    {
        if interfaces[i].is_vendor_mtp_candidate() && is_named_mtp(
            names,
            interfaces[i].string_index,
        ) {
            return Some(i);
        }
        i = i + 1;
    }
    None
}

impl MtpInterface {
    /// Takes an interface with the endpoints that MTP needs.
    fn of(iface: &Interface) -> (r: Result<Self, DescriptorError>)
        ensures
            r == with_mtp_endpoints(iface@),
    {
        let bulk_in = find_endpoint(&iface.endpoints, TRANSFER_BULK, true);
        let bulk_out = find_endpoint(&iface.endpoints, TRANSFER_BULK, false);
        let interrupt_in = find_endpoint(&iface.endpoints, TRANSFER_INTERRUPT, true);
        match (bulk_in, bulk_out) {
            (Some(i), Some(o)) => Ok(
                MtpInterface {
                    interface_number: iface.number,
                    alternate_setting: iface.alternate_setting,
                    class: iface.class,
                    subclass: iface.subclass,
                    protocol: iface.protocol,
                    bulk_in: i.address,
                    bulk_out: o.address,
                    interrupt_in: match interrupt_in {
                        Some(e) => Some(e.address),
                        None => None,
                    },
                    max_packet_size: i.max_packet_size,
                },
            ),
            (i, o) => Err(
                DescriptorError::IncompleteMtpEndpoints {
                    has_in: i.is_some(),
                    has_out: o.is_some(),
                },
            ),
        }
    }

    /// Finds the MTP interface of a configuration.
    ///
    /// The function checks the interface class first. A phone with USB debugging on gives other
    /// interfaces that also have bulk endpoints, and the function does not choose one of them.
    pub fn find(cfg: &ConfigDescriptor) -> (r: Result<Self, DescriptorError>)
        ensures
            r == mtp_by_class(interface_views(cfg.interfaces@)),
    {
        match find_classed(&cfg.interfaces) {
            Some(i) => MtpInterface::of(&cfg.interfaces[i]),
            None => Err(DescriptorError::NoMtpInterface),
        }
    }

    /// Finds the MTP interface of a configuration, where the class alone does not say.
    ///
    /// An interface with the MTP class comes first. Without one, the function takes an interface
    /// of a vendor class whose name is `MTP`. The names are those that the device gave for the
    /// string indexes of its vendor interfaces.
    pub fn find_with_names(cfg: &ConfigDescriptor, names: &[(u8, Option<String>)]) -> (r: Result<
        Self,
        DescriptorError,
    >)
        ensures
            r == mtp_by_class_or_name(interface_views(cfg.interfaces@), names@),
    {
        match find_classed(&cfg.interfaces) {
            Some(i) => MtpInterface::of(&cfg.interfaces[i]),
            None => match find_named(&cfg.interfaces, names) {
                Some(i) => MtpInterface::of(&cfg.interfaces[i]),
                None => Err(DescriptorError::NoMtpInterface),
            },
        }
    }
}

/// What a device says it can do, from the BOS descriptor.
///
/// BOS means binary device object store. The list does not change with the speed of the link, so
/// the list tells a host what the device could do on a better cable.
#[derive(Debug, Clone, Copy, PartialEq, Eq)]
pub struct DeviceCapabilities {
    /// The device holds a super speed capability descriptor.
    pub super_speed: bool,
    /// The device holds a super speed plus capability descriptor.
    pub super_speed_plus: bool,
    /// The raw value of `wSpeedsSupported`, if the device gives one.
    pub speeds_supported: Option<u16>,
}

/// The capabilities after the descriptor at position `at`, where `seen` stand before it.
pub open spec fn after_capability(seen: DeviceCapabilities, buf: Seq<u8>, at: int) -> DeviceCapabilities {
    if buf[at + 1] != TYPE_DEVICE_CAPABILITY {
        seen
    } else if buf[at + 2] == CAPABILITY_SUPER_SPEED {
        DeviceCapabilities {
            super_speed: true,
            speeds_supported: if buf[at] >= 6 {
                Some(bytes::u16_at(buf, at + 4))
            } else {
                seen.speeds_supported
            },
            ..seen
        }
    } else if buf[at + 2] == CAPABILITY_SUPER_SPEED_PLUS {
        DeviceCapabilities { super_speed_plus: true, ..seen }
    } else {
        seen
    }
}

/// The capabilities that the descriptors from position `at` up to `end` add to those seen before.
pub open spec fn capabilities_from(
    buf: Seq<u8>,
    at: int,
    end: int,
    seen: DeviceCapabilities,
) -> Result<DeviceCapabilities, DescriptorError>
    decreases end - at,
{
    if at + 3 > end {
        Ok(seen)
    } else {
        match step_fault(buf, at, end) {
            Some(e) => Err(e),
            None => capabilities_from(
                buf,
                at + buf[at],
                end,
                after_capability(seen, buf, at),
            ),
        }
    }
}

/// The capabilities of a BOS descriptor.
pub open spec fn bos_capabilities(buf: Seq<u8>) -> Result<DeviceCapabilities, DescriptorError> {
    if buf.len() < 5 {
        Err(DescriptorError::TooShort { need: 5, got: buf.len() as usize })
    } else if buf[1] != TYPE_BOS {
        Err(DescriptorError::WrongType { expected: TYPE_BOS, got: buf[1] })
    } else if buf[0] == 0 {
        Err(DescriptorError::ZeroLength { at: 0 })
    } else {
        capabilities_from(
            buf,
            buf[0] as int,
            walk_end(buf),
            DeviceCapabilities {
                super_speed: false,
                super_speed_plus: false,
                speeds_supported: None,
            },
        )
    }
}

impl DeviceCapabilities {
    /// Reads a BOS descriptor.
    ///
    /// The walk advances by the length of each capability. A length of 0 gives an error, so the
    /// walk always stops.
    pub fn parse(buf: &[u8]) -> (r: Result<Self, DescriptorError>)
        ensures
            r == bos_capabilities(buf@),
    {
        if buf.len() < 5 {
            return Err(DescriptorError::TooShort { need: 5, got: buf.len() });
        }
        if buf[1] != TYPE_BOS {
            return Err(DescriptorError::WrongType { expected: TYPE_BOS, got: buf[1] });
        }
        let total: usize = bytes::read_u16_at(buf, 2) as usize;
        let end: usize = if buf.len() < total {
            buf.len()
        } else {
            total
        };
        let mut out = DeviceCapabilities {
            super_speed: false,
            super_speed_plus: false,
            speeds_supported: None,
        };
        let mut pos: usize = buf[0] as usize;
        if pos == 0 {
            return Err(DescriptorError::ZeroLength { at: 0 });
        }
        while pos + 3 <= end
            invariant
                end <= buf@.len(),
                end <= 0xffff,
                pos <= end + 255,
                bos_capabilities(buf@) == capabilities_from(buf@, pos as int, end as int, out),
            decreases end + 255 - pos,
        {
            let len: usize = buf[pos] as usize;
            if len == 0 {
                return Err(DescriptorError::ZeroLength { at: pos });
            }
            if pos + len > end {
                return Err(DescriptorError::RunsPastEnd { at: pos, need: len, got: end - pos });
            }
            if buf[pos + 1] == TYPE_DEVICE_CAPABILITY {
                let capability: u8 = buf[pos + 2];
                if capability == CAPABILITY_SUPER_SPEED {
                    out.super_speed = true;
                    if len >= 6 {
                        out.speeds_supported = Some(bytes::read_u16_at(buf, pos + 4));
                    }
                } else if capability == CAPABILITY_SUPER_SPEED_PLUS {
                    out.super_speed_plus = true;
                }
            }
            pos = pos + len;
        }
        Ok(out)
    }

    /// Tells you if the device can run faster than high speed.
    pub fn supports_faster_than_high(&self) -> (r: bool)
        ensures
            r == (self.super_speed_plus || self.super_speed || (self.speeds_supported is Some
                && self.speeds_supported->0 / SPEED_BIT_SUPER % 2 == 1)),
    {
        if self.super_speed_plus || self.super_speed {
            return true;
        }
        match self.speeds_supported {
            Some(s) => {
                proof {
                    assert((s & 0x0008 != 0) == (s / 8 % 2 == 1)) by (bit_vector);
                }
                s & SPEED_BIT_SUPER != 0
            },
            None => false,
        }
    }
}

/// No interface carries both MTP and adb, and none of them is an MTP interface by name as well.
pub proof fn law_roles_exclude_each_other(iface: InterfaceView)
    ensures
        !(iface.mtp() && iface.adb()),
        !(iface.mtp() && iface.vendor_mtp_candidate()),
        !(iface.adb() && iface.vendor_mtp_candidate()),
{
}

/// An endpoint descriptor joins the interface that was announced last, and leaves every other
/// interface as it was. A class or vendor descriptor leaves all of them as they were.
pub proof fn law_endpoints_join_the_interface_before_them(
    seen: Seq<InterfaceView>,
    buf: Seq<u8>,
    at: int,
)
    requires
        after_descriptor(seen, buf, at) is Ok,
    ensures
        ({
            let more = after_descriptor(seen, buf, at)->Ok_0;
            &&& buf[at + 1] == TYPE_ENDPOINT ==> {
                &&& more.len() == seen.len()
                &&& more.drop_last() == seen.drop_last()
                &&& more.last().endpoints == seen.last().endpoints.push(endpoint_at(buf, at))
            }
            &&& buf[at + 1] == TYPE_INTERFACE ==> more.len() == seen.len() + 1 && more.drop_last()
                == seen && more.last().endpoints.len() == 0
            &&& buf[at + 1] != TYPE_ENDPOINT && buf[at + 1] != TYPE_INTERFACE ==> more == seen
        }),
{
    let more = after_descriptor(seen, buf, at)->Ok_0;
    if buf[at + 1] == TYPE_ENDPOINT {
        assert(more.drop_last() =~= seen.drop_last());
    } else if buf[at + 1] == TYPE_INTERFACE {
        assert(more.drop_last() =~= seen);
    }
}

/// Bytes behind the size that a configuration descriptor declares change nothing: no descriptor
/// makes the host read past its own end.
pub proof fn law_config_ignores_trailing_bytes(buf: Seq<u8>, extra: Seq<u8>)
    requires
        buf.len() >= 9,
        bytes::u16_at(buf, 2) <= buf.len(),
    ensures
        config_interfaces(buf + extra) == config_interfaces(buf),
{
    assert(bytes::u16_at(buf + extra, 2) == bytes::u16_at(buf, 2));
    lemma_walk_ignores_trailing_bytes(buf, extra, buf[0] as int, walk_end(buf), Seq::empty());
}

proof fn lemma_walk_ignores_trailing_bytes(
    buf: Seq<u8>,
    extra: Seq<u8>,
    at: int,
    end: int,
    seen: Seq<InterfaceView>,
)
    requires
        0 <= at,
        end <= buf.len(),
    ensures
        interfaces_from(buf + extra, at, end, seen) == interfaces_from(buf, at, end, seen),
    decreases end - at,
{
    if at + 2 <= end {
        assert((buf + extra)[at] == buf[at]);
        assert((buf + extra)[at + 1] == buf[at + 1]);
        if step_fault(buf, at, end) is None {
            assert(after_descriptor(seen, buf + extra, at) == after_descriptor(seen, buf, at));
            match after_descriptor(seen, buf, at) {
                Ok(more) => {
                    lemma_walk_ignores_trailing_bytes(buf, extra, at + buf[at], end, more);
                },
                Err(_) => {},
            }
        }
    }
}

/// The endpoints of a chosen interface are endpoints of that interface, they are bulk endpoints of
/// the two directions, and the event endpoint sends to the host.
pub proof fn law_chosen_endpoints_belong_to_the_interface(iface: InterfaceView)
    requires
        with_mtp_endpoints(iface) is Ok,
    ensures
        ({
            let m = with_mtp_endpoints(iface)->Ok_0;
            &&& exists|k: int|
                0 <= k < iface.endpoints.len() && (#[trigger] iface.endpoints[k]).address
                    == m.bulk_in && iface.endpoints[k].transfer_type == TRANSFER_BULK
                    && iface.endpoints[k].max_packet_size == m.max_packet_size
            &&& exists|k: int|
                0 <= k < iface.endpoints.len() && (#[trigger] iface.endpoints[k]).address
                    == m.bulk_out && iface.endpoints[k].transfer_type == TRANSFER_BULK
            &&& m.bulk_in >= DIRECTION_IN
            &&& m.bulk_out < DIRECTION_IN
            &&& m.interrupt_in is Some ==> m.interrupt_in->0 >= DIRECTION_IN
        }),
{
    lemma_first_endpoint(iface.endpoints, TRANSFER_BULK, true, 0);
    lemma_first_endpoint(iface.endpoints, TRANSFER_BULK, false, 0);
    lemma_first_endpoint(iface.endpoints, TRANSFER_INTERRUPT, true, 0);
}

proof fn lemma_first_endpoint(endpoints: Seq<Endpoint>, transfer_type: u8, to_host: bool, i: int)
    requires
        0 <= i,
    ensures
        match first_endpoint(endpoints, transfer_type, to_host, i) {
            Some(e) => e.transfer_type == transfer_type && e.sends_to_host() == to_host && exists|
                k: int,
            |
                i <= k < endpoints.len() && #[trigger] endpoints[k] == e,
            None => true,
        },
    decreases endpoints.len() - i,
{
    if i < endpoints.len() {
        lemma_first_endpoint(endpoints, transfer_type, to_host, i + 1);
    }
}

/// An interface of a vendor class is never taken without its name: where no interface has the MTP
/// class and no name read is `MTP`, there is no MTP interface.
pub proof fn law_vendor_class_needs_the_name(
    ifaces: Seq<InterfaceView>,
    names: Seq<(u8, Option<String>)>,
)
    requires
        forall|i: int| 0 <= i < ifaces.len() ==> !(#[trigger] ifaces[i]).mtp(),
        forall|k: int|
            0 <= k < names.len() ==> ((#[trigger] names[k]).1 is Some ==> names[k].1->0@
                != mtp_name()),
    ensures
        mtp_by_class_or_name(ifaces, names) == Err::<MtpInterface, DescriptorError>(
            DescriptorError::NoMtpInterface,
        ),
{
    lemma_none_classed(ifaces, 0);
    assert forall|index: u8| name_read(names, index, 0) != Some(mtp_name()) by {
        lemma_name_read_is_given(names, index, 0);
    }
    lemma_none_named(ifaces, names, 0);
}

proof fn lemma_none_classed(ifaces: Seq<InterfaceView>, i: int)
    requires
        0 <= i,
        forall|k: int| 0 <= k < ifaces.len() ==> !(#[trigger] ifaces[k]).mtp(),
    ensures
        first_classed(ifaces, i) is None,
    decreases ifaces.len() - i,
{
    if i < ifaces.len() {
        lemma_none_classed(ifaces, i + 1);
    }
}

proof fn lemma_none_named(ifaces: Seq<InterfaceView>, names: Seq<(u8, Option<String>)>, i: int)
    requires
        0 <= i,
        forall|index: u8| name_read(names, index, 0) != Some(mtp_name()),
    ensures
        first_named(ifaces, names, i) is None,
    decreases ifaces.len() - i,
{
    if i < ifaces.len() {
        lemma_none_named(ifaces, names, i + 1);
    }
}

proof fn lemma_name_read_is_given(names: Seq<(u8, Option<String>)>, index: u8, i: int)
    requires
        0 <= i,
    ensures
        match name_read(names, index, i) {
            Some(s) => exists|k: int|
                i <= k < names.len() && (#[trigger] names[k]).1 is Some && names[k].1->0@ == s,
            None => true,
        },
    decreases names.len() - i,
{
    if i < names.len() {
        lemma_name_read_is_given(names, index, i + 1);
    }
}

/// The class of an interface alone says what the interface is: MTP is 6, 1, 1, and adb is 0xff, 0x42, 1. An
/// interface of 0xff, 0xff, 0 with a name to read may be MTP. The number, the alternate setting and the
/// endpoints do not matter.
pub proof fn law_the_class_says_what_an_interface_is(iface: &Interface, m: bool, a: bool, v: bool)
    requires
        call_ensures(Interface::is_mtp, (iface,), m),
        call_ensures(Interface::is_adb, (iface,), a),
        call_ensures(Interface::is_vendor_mtp_candidate, (iface,), v),
    ensures
        m <==> iface.class == 6 && iface.subclass == 1 && iface.protocol == 1,
        a <==> iface.class == 0xff && iface.subclass == 0x42 && iface.protocol == 1,
        v <==> iface.class == 0xff && iface.subclass == 0xff && iface.protocol == 0
            && iface.string_index != 0,
{
}

/// Whether the endpoint at `p` is the first of this transfer type and direction. An address of 0x80 or more
/// sends to the host.
pub open spec fn is_first_endpoint(endpoints: Seq<Endpoint>, p: int, kind: u8, to_host: bool) -> bool {
    &&& 0 <= p < endpoints.len()
    &&& endpoints[p].transfer_type == kind && (endpoints[p].address >= 0x80) == to_host
    &&& forall|q: int|
        0 <= q < p ==> !((#[trigger] endpoints[q]).transfer_type == kind && (endpoints[q].address
            >= 0x80) == to_host)
}

/// Whether an interface has an endpoint of this transfer type and direction at all.
pub open spec fn has_endpoint(endpoints: Seq<Endpoint>, kind: u8, to_host: bool) -> bool {
    exists|q: int|
        0 <= q < endpoints.len() && (#[trigger] endpoints[q]).transfer_type == kind && (
        endpoints[q].address >= 0x80) == to_host
}

/// Whether `r` is this interface, with its first bulk endpoint of each direction and with its first interrupt
/// endpoint to the host; or the error that says which bulk endpoint it lacks.
pub open spec fn is_taken(iface: InterfaceView, r: Result<MtpInterface, DescriptorError>) -> bool {
    let has_in = has_endpoint(iface.endpoints, 2, true);
    let has_out = has_endpoint(iface.endpoints, 2, false);
    &&& !has_in || !has_out ==> r == Err::<MtpInterface, DescriptorError>(
        DescriptorError::IncompleteMtpEndpoints { has_in, has_out },
    )
    &&& has_in && has_out ==> r is Ok && {
        let m = r->Ok_0;
        &&& m.interface_number == iface.number
        &&& m.alternate_setting == iface.alternate_setting
        &&& m.class == iface.class
        &&& m.subclass == iface.subclass
        &&& m.protocol == iface.protocol
        &&& exists|p: int|
            #[trigger] is_first_endpoint(iface.endpoints, p, 2, true) && m.bulk_in
                == iface.endpoints[p].address && m.max_packet_size
                == iface.endpoints[p].max_packet_size
        &&& exists|p: int|
            #[trigger] is_first_endpoint(iface.endpoints, p, 2, false) && m.bulk_out
                == iface.endpoints[p].address
        &&& m.interrupt_in is None ==> !has_endpoint(iface.endpoints, 3, true)
        &&& m.interrupt_in is Some ==> exists|p: int|
            #[trigger] is_first_endpoint(iface.endpoints, p, 3, true) && m.interrupt_in->0
                == iface.endpoints[p].address
    }
}

/// Whether the interface has a vendor class with a name to read, and the first name that was read for that
/// index, at position `k`, is `MTP`.
pub open spec fn is_called_mtp(iface: InterfaceView, names: Seq<(u8, Option<String>)>, k: int) -> bool {
    &&& iface.class == 0xff && iface.subclass == 0xff && iface.protocol == 0
    &&& iface.string_index != 0
    &&& 0 <= k < names.len() && names[k].0 == iface.string_index
    &&& names[k].1 is Some && names[k].1->0@ == seq!['M', 'T', 'P']
    &&& forall|j: int| 0 <= j < k ==> (#[trigger] names[j]).0 != iface.string_index
}

/// Whether the class of an interface is that of MTP.
pub open spec fn is_classed_mtp(iface: InterfaceView) -> bool {
    iface.class == 6 && iface.subclass == 1 && iface.protocol == 1
}

/// Where an interface has the MTP class, the first such interface is taken, whatever else the device has and
/// whatever names were read.
pub proof fn law_the_first_classed_interface_is_taken(
    cfg: &ConfigDescriptor,
    names: &[(u8, Option<String>)],
    i: int,
    by_class: Result<MtpInterface, DescriptorError>,
    by_name: Result<MtpInterface, DescriptorError>,
)
    requires
        0 <= i < cfg.interfaces@.len(),
        is_classed_mtp(cfg.interfaces@[i]@),
        forall|j: int| 0 <= j < i ==> !is_classed_mtp((#[trigger] cfg.interfaces@[j])@),
        call_ensures(MtpInterface::find, (cfg,), by_class),
        call_ensures(MtpInterface::find_with_names, (cfg, names), by_name),
    ensures
        is_taken(cfg.interfaces@[i]@, by_class),
        is_taken(cfg.interfaces@[i]@, by_name),
{
    let ifaces = interface_views(cfg.interfaces@);
    assert forall|j: int| 0 <= j < i implies !(#[trigger] ifaces[j]).mtp() by {
        assert(!is_classed_mtp(cfg.interfaces@[j]@));
    }
    lemma_first_classed(ifaces, 0, i);
    lemma_taken(ifaces[i]);
}

/// Where no interface has the MTP class, the first interface of class 0xff, subclass 0xff and protocol 0 that
/// has a string index other than 0, and whose name was read as `MTP`, is taken, whatever endpoints it has
/// besides a bulk endpoint of each direction.
pub proof fn law_the_first_interface_called_mtp_is_taken(
    cfg: &ConfigDescriptor,
    names: &[(u8, Option<String>)],
    i: int,
    k: int,
    r: Result<MtpInterface, DescriptorError>,
)
    requires
        forall|j: int|
            0 <= j < cfg.interfaces@.len() ==> !is_classed_mtp((#[trigger] cfg.interfaces@[j])@),
        0 <= i < cfg.interfaces@.len(),
        is_called_mtp(cfg.interfaces@[i]@, names@, k),
        forall|j: int, m: int|
            0 <= j < i ==> !#[trigger] is_called_mtp(cfg.interfaces@[j]@, names@, m),
        call_ensures(MtpInterface::find_with_names, (cfg, names), r),
    ensures
        is_taken(cfg.interfaces@[i]@, r),
{
    let ifaces = interface_views(cfg.interfaces@);
    assert forall|j: int| 0 <= j < ifaces.len() implies !(#[trigger] ifaces[j]).mtp() by {
        assert(!is_classed_mtp(cfg.interfaces@[j]@));
    }
    lemma_none_classed(ifaces, 0);
    assert forall|j: int| 0 <= j < i implies !named_mtp(#[trigger] ifaces[j], names@) by {
        lemma_called(ifaces[j], names@);
    }
    lemma_called(ifaces[i], names@);
    assert(named_mtp(ifaces[i], names@)) by {
        lemma_name_of_index(names@, ifaces[i].string_index, 0, k);
        reveal_strlit("MTP");
        assert("MTP"@ =~= seq!['M', 'T', 'P']);
    }
    lemma_first_named(ifaces, names@, 0, i);
    lemma_taken(ifaces[i]);
}

/// Where no interface has the MTP class, and none is called `MTP`, the device has no MTP interface.
pub proof fn law_no_other_interface_is_taken(
    cfg: &ConfigDescriptor,
    names: &[(u8, Option<String>)],
    by_class: Result<MtpInterface, DescriptorError>,
    by_name: Result<MtpInterface, DescriptorError>,
)
    requires
        forall|j: int|
            0 <= j < cfg.interfaces@.len() ==> !is_classed_mtp((#[trigger] cfg.interfaces@[j])@),
        call_ensures(MtpInterface::find, (cfg,), by_class),
        call_ensures(MtpInterface::find_with_names, (cfg, names), by_name),
    ensures
        by_class == Err::<MtpInterface, DescriptorError>(DescriptorError::NoMtpInterface),
        (forall|j: int, m: int|
            0 <= j < cfg.interfaces@.len() ==> !#[trigger] is_called_mtp(
                cfg.interfaces@[j]@,
                names@,
                m,
            )) ==> by_name == Err::<MtpInterface, DescriptorError>(DescriptorError::NoMtpInterface),
{
    let ifaces = interface_views(cfg.interfaces@);
    assert forall|j: int| 0 <= j < ifaces.len() implies !(#[trigger] ifaces[j]).mtp() by {
        assert(!is_classed_mtp(cfg.interfaces@[j]@));
    }
    lemma_none_classed(ifaces, 0);
    if forall|j: int, m: int|
        0 <= j < cfg.interfaces@.len() ==> !#[trigger] is_called_mtp(
            cfg.interfaces@[j]@,
            names@,
            m,
        ) {
        assert forall|j: int| 0 <= j < ifaces.len() implies !named_mtp(
            #[trigger] ifaces[j],
            names@,
        ) by {
            lemma_called(ifaces[j], names@);
        }
        lemma_first_named(ifaces, names@, 0, ifaces.len() as int);
    }
}

/// An interface is named as MTP exactly where it is called so at some position.
pub proof fn lemma_called(iface: InterfaceView, names: Seq<(u8, Option<String>)>)
    ensures
        named_mtp(iface, names) <==> exists|m: int| #[trigger] is_called_mtp(iface, names, m),
{
    if exists|m: int| #[trigger] is_called_mtp(iface, names, m) {
        let m = choose|m: int| #[trigger] is_called_mtp(iface, names, m);
        lemma_name_of_index(names, iface.string_index, 0, m);
        reveal_strlit("MTP");
        assert("MTP"@ =~= seq!['M', 'T', 'P']);
    }
    if named_mtp(iface, names) {
        reveal_strlit("MTP");
        assert("MTP"@ =~= seq!['M', 'T', 'P']);
        let m = lemma_position_of_name(names, iface.string_index, 0);
        assert(is_called_mtp(iface, names, m));
    }
}

proof fn lemma_position_of_name(names: Seq<(u8, Option<String>)>, index: u8, i: int) -> (m: int)
    requires
        0 <= i,
        name_read(names, index, i) is Some,
        forall|j: int| 0 <= j < i ==> (#[trigger] names[j]).0 != index,
    ensures
        i <= m < names.len(),
        names[m].0 == index,
        names[m].1 is Some && Some(names[m].1->0@) == name_read(names, index, i),
        forall|j: int| 0 <= j < m ==> (#[trigger] names[j]).0 != index,
    decreases names.len() - i,
{
    if names[i].0 == index {
        i
    } else {
        lemma_position_of_name(names, index, i + 1)
    }
}

proof fn lemma_name_of_index(names: Seq<(u8, Option<String>)>, index: u8, i: int, k: int)
    requires
        0 <= i <= k < names.len(),
        names[k].0 == index,
        names[k].1 is Some,
        forall|j: int| 0 <= j < k ==> (#[trigger] names[j]).0 != index,
    ensures
        name_read(names, index, i) == Some(names[k].1->0@),
    decreases k - i,
{
    if i < k {
        assert(names[i].0 != index);
        lemma_name_of_index(names, index, i + 1, k);
    }
}

proof fn lemma_first_classed(ifaces: Seq<InterfaceView>, at: int, i: int)
    requires
        0 <= at <= i < ifaces.len(),
        ifaces[i].mtp(),
        forall|j: int| 0 <= j < i ==> !(#[trigger] ifaces[j]).mtp(),
    ensures
        first_classed(ifaces, at) == Some(ifaces[i]),
    decreases i - at,
{
    if at < i {
        assert(!ifaces[at].mtp());
        lemma_first_classed(ifaces, at + 1, i);
    }
}

proof fn lemma_first_named(
    ifaces: Seq<InterfaceView>,
    names: Seq<(u8, Option<String>)>,
    at: int,
    i: int,
)
    requires
        0 <= at <= i <= ifaces.len(),
        i < ifaces.len() ==> named_mtp(ifaces[i], names),
        forall|j: int| 0 <= j < i ==> !named_mtp(#[trigger] ifaces[j], names),
    ensures
        i < ifaces.len() ==> first_named(ifaces, names, at) == Some(ifaces[i]),
        i == ifaces.len() ==> first_named(ifaces, names, at) is None,
    decreases i - at,
{
    if at < i {
        assert(!named_mtp(ifaces[at], names));
        lemma_first_named(ifaces, names, at + 1, i);
    }
}

proof fn lemma_which_endpoint(endpoints: Seq<Endpoint>, kind: u8, to_host: bool, i: int)
    requires
        0 <= i,
        forall|q: int|
            0 <= q < i && q < endpoints.len() ==> !((#[trigger] endpoints[q]).transfer_type == kind
                && (endpoints[q].address >= 0x80) == to_host),
    ensures
        match first_endpoint(endpoints, kind, to_host, i) {
            Some(e) => has_endpoint(endpoints, kind, to_host) && exists|p: int|
                #[trigger] is_first_endpoint(endpoints, p, kind, to_host) && e == endpoints[p],
            None => !has_endpoint(endpoints, kind, to_host),
        },
    decreases endpoints.len() - i,
{
    if i < endpoints.len() {
        if endpoints[i].transfer_type == kind && endpoints[i].sends_to_host() == to_host {
            assert(is_first_endpoint(endpoints, i, kind, to_host));
        } else {
            lemma_which_endpoint(endpoints, kind, to_host, i + 1);
        }
    }
}

proof fn lemma_taken(iface: InterfaceView)
    ensures
        is_taken(iface, with_mtp_endpoints(iface)),
{
    lemma_which_endpoint(iface.endpoints, TRANSFER_BULK, true, 0);
    lemma_which_endpoint(iface.endpoints, TRANSFER_BULK, false, 0);
    lemma_which_endpoint(iface.endpoints, TRANSFER_INTERRUPT, true, 0);
}

/// The interfaces that one whole descriptor `d` leaves, where `seen` stand before it: an interface descriptor
/// adds the interface of its bytes, an endpoint descriptor adds the endpoint of its bytes to the last
/// interface, and any other descriptor adds nothing.
pub open spec fn joined_by(seen: Seq<InterfaceView>, d: Seq<u8>, more: Seq<InterfaceView>) -> bool {
    if d[1] == 4 {
        &&& d.len() >= 9
        &&& more == seen.push(
            InterfaceView {
                number: d[2],
                alternate_setting: d[3],
                class: d[5],
                subclass: d[6],
                protocol: d[7],
                string_index: d[8],
                endpoints: Seq::empty(),
            },
        )
    } else if d[1] == 5 {
        &&& d.len() >= 7
        &&& seen.len() > 0 && more.len() == seen.len()
        &&& forall|i: int| 0 <= i < seen.len() - 1 ==> #[trigger] more[i] == seen[i]
        &&& more.last() == (InterfaceView {
            endpoints: seen.last().endpoints.push(
                Endpoint {
                    address: d[2],
                    transfer_type: d[3] % 4,
                    max_packet_size: (d[4] + 256 * d[5]) as u16,
                },
            ),
            ..seen.last()
        })
    } else {
        more == seen
    }
}

/// Whether `d` is one descriptor with its own length in front.
pub open spec fn is_descriptor(d: Seq<u8>) -> bool {
    2 <= d.len() <= 255 && d[0] == d.len()
}

/// Descriptors, one behind the other.
pub open spec fn chained(ds: Seq<Seq<u8>>) -> Seq<u8>
    decreases ds.len(),
{
    if ds.len() == 0 {
        Seq::empty()
    } else {
        ds[0] + chained(ds.drop_first())
    }
}

/// A configuration descriptor reads as what its descriptors add up to, one after the other and all of them.
/// `steps[i]` is what stands after `i` descriptors.
pub proof fn law_a_configuration_is_what_its_descriptors_say(
    header: Seq<u8>,
    ds: Seq<Seq<u8>>,
    after: Seq<u8>,
    steps: Seq<Seq<InterfaceView>>,
)
    requires
        9 <= header.len() <= 255,
        header[0] == header.len(),
        header[1] == 2,
        header[2] + 256 * header[3] == header.len() + chained(ds).len(),
        forall|i: int| 0 <= i < ds.len() ==> is_descriptor(#[trigger] ds[i]),
        steps.len() == ds.len() + 1,
        steps[0] == Seq::<InterfaceView>::empty(),
        forall|i: int| 0 <= i < ds.len() ==> joined_by(steps[i], #[trigger] ds[i], steps[i + 1]),
    ensures
        config_interfaces(header + chained(ds) + after) == Ok::<
            Seq<InterfaceView>,
            DescriptorError,
        >(steps.last()),
{
    let buf = header + chained(ds) + after;
    bytes::law_numbers_are_little_endian(buf, 2);
    assert(buf[0] == header[0] && buf[1] == header[1]);
    assert(buf[2] == header[2] && buf[3] == header[3]);
    lemma_descriptors_join(header, ds, after, steps);
}

proof fn lemma_descriptors_join(
    before: Seq<u8>,
    ds: Seq<Seq<u8>>,
    after: Seq<u8>,
    steps: Seq<Seq<InterfaceView>>,
)
    requires
        forall|i: int| 0 <= i < ds.len() ==> is_descriptor(#[trigger] ds[i]),
        steps.len() == ds.len() + 1,
        forall|i: int| 0 <= i < ds.len() ==> joined_by(steps[i], #[trigger] ds[i], steps[i + 1]),
    ensures
        interfaces_from(
            before + chained(ds) + after,
            before.len() as int,
            (before.len() + chained(ds).len()) as int,
            steps[0],
        ) == Ok::<Seq<InterfaceView>, DescriptorError>(steps.last()),
    decreases ds.len(),
{
    let buf = before + chained(ds) + after;
    let at = before.len() as int;
    if ds.len() > 0 {
        let d = ds[0];
        let rest = ds.drop_first();
        let next = steps.drop_first();
        assert(is_descriptor(d));
        assert(joined_by(steps[0], ds[0], steps[1]));
        assert forall|i: int| 0 <= i < d.len() implies buf[at + i] == #[trigger] d[i] by {}
        assert(buf[at] == d[0] && buf[at + 1] == d[1]);
        if d[1] == 4 {
            assert(buf[at + 2] == d[2] && buf[at + 3] == d[3] && buf[at + 5] == d[5] && buf[at + 6]
                == d[6] && buf[at + 7] == d[7] && buf[at + 8] == d[8]);
        } else if d[1] == 5 {
            assert(buf[at + 2] == d[2] && buf[at + 3] == d[3] && buf[at + 4] == d[4] && buf[at + 5]
                == d[5]);
            assert(with_endpoint(steps[0], endpoint_at(buf, at)) =~= steps[1]);
        }
        assert(after_descriptor(steps[0], buf, at) == Ok::<Seq<InterfaceView>, DescriptorError>(
            steps[1],
        ));
        assert forall|i: int| 0 <= i < rest.len() implies is_descriptor(#[trigger] rest[i]) by {
            assert(rest[i] == ds[i + 1]);
        }
        assert forall|i: int| 0 <= i < rest.len() implies joined_by(
            next[i],
            #[trigger] rest[i],
            next[i + 1],
        ) by {
            assert(rest[i] == ds[i + 1]);
        }
        lemma_descriptors_join(before + d, rest, after, next);
        assert(buf =~= (before + d) + chained(rest) + after);
    }
}

/// What makes a configuration descriptor unreadable at its start, and at each descriptor: a length of 0, a
/// length that reaches behind the end, an interface or an endpoint that is too short, and an endpoint that no
/// interface precedes. Nothing else does.
pub proof fn law_what_makes_a_configuration_unreadable(
    buf: Seq<u8>,
    at: int,
    end: int,
    seen: Seq<InterfaceView>,
)
    requires
        0 <= at,
        at + 2 <= end <= buf.len(),
        buf.len() <= usize::MAX,
    ensures
        ({
            let r = interfaces_from(buf, at, end, seen);
            let len = buf[at] as usize;
            &&& len == 0 ==> r == Err::<Seq<InterfaceView>, DescriptorError>(
                DescriptorError::ZeroLength { at: at as usize },
            )
            &&& len > 0 && at + len > end ==> r == Err::<Seq<InterfaceView>, DescriptorError>(
                DescriptorError::RunsPastEnd {
                    at: at as usize,
                    need: len,
                    got: (end - at) as usize,
                },
            )
            &&& len > 0 && at + len <= end && buf[at + 1] == 4 && len < 9 ==> r == Err::<
                Seq<InterfaceView>,
                DescriptorError,
            >(DescriptorError::TooShort { need: 9, got: len })
            &&& len > 0 && at + len <= end && buf[at + 1] == 5 && len < 7 ==> r == Err::<
                Seq<InterfaceView>,
                DescriptorError,
            >(DescriptorError::TooShort { need: 7, got: len })
            &&& 7 <= len && at + len <= end && buf[at + 1] == 5 && seen.len() == 0 ==> r == Err::<
                Seq<InterfaceView>,
                DescriptorError,
            >(DescriptorError::EndpointWithoutInterface)
            &&& len > 0 && at + len <= end && buf[at + 1] != 4 && buf[at + 1] != 5 ==> r
                == interfaces_from(buf, at + len, end, seen)
            &&& at + 2 > end - len && len > 0 && at + len <= end && (buf[at + 1] == 4 && len >= 9
                || buf[at + 1] == 5 && len >= 7 && seen.len() > 0) ==> r is Ok
        }),
{
    reveal_with_fuel(interfaces_from, 2);
}

/// Which headers of a configuration descriptor are refused.
pub proof fn law_which_configuration_headers_are_refused(buf: Seq<u8>)
    requires
        buf.len() <= usize::MAX,
    ensures
        buf.len() < 9 ==> config_interfaces(buf) == Err::<Seq<InterfaceView>, DescriptorError>(
            DescriptorError::TooShort { need: 9, got: buf.len() as usize },
        ),
        buf.len() >= 9 && buf[1] != 2 ==> config_interfaces(buf) == Err::<
            Seq<InterfaceView>,
            DescriptorError,
        >(DescriptorError::WrongType { expected: 2, got: buf[1] }),
        buf.len() >= 9 && buf[1] == 2 && buf[0] == 0 ==> config_interfaces(buf) == Err::<
            Seq<InterfaceView>,
            DescriptorError,
        >(DescriptorError::ZeroLength { at: 0 }),
        buf.len() >= 9 && buf[1] == 2 && buf[0] > 0 && buf[0] + 2 > buf.len() ==> config_interfaces(
            buf,
        ) == Ok::<Seq<InterfaceView>, DescriptorError>(Seq::empty()),
{
}

/// The fields of the header of a configuration that was read are those of its bytes.
pub proof fn law_the_header_of_a_configuration(
    buf: &[u8],
    r: Result<ConfigDescriptor, DescriptorError>,
)
    requires
        call_ensures(ConfigDescriptor::parse, (buf,), r),
    ensures
        r is Ok ==> {
            &&& r->Ok_0.total_length == buf@[2] + 256 * buf@[3]
            &&& r->Ok_0.num_interfaces == buf@[4]
            &&& r->Ok_0.configuration_value == buf@[5]
            &&& config_interfaces(buf@) is Ok
            &&& config_interfaces(buf@)->Ok_0.len() == r->Ok_0.interfaces@.len()
            &&& forall|i: int|
                0 <= i < r->Ok_0.interfaces@.len() ==> (#[trigger] r->Ok_0.interfaces@[i])@
                    == config_interfaces(buf@)->Ok_0[i]
        },
        r is Err ==> config_interfaces(buf@) == Err::<Seq<InterfaceView>, DescriptorError>(
            r->Err_0,
        ),
{
}

/// Whether a descriptor is a device capability of this type.
pub open spec fn is_capability(d: Seq<u8>, capability: u8) -> bool {
    d[1] == 0x10 && d[2] == capability
}

/// What the capabilities of a device are: it has super speed exactly where one of its descriptors is a device
/// capability of type 3, it has super speed plus exactly where one is of type 10, and the supported speeds are
/// those of the last descriptor of type 3 that is long enough to hold them.
pub proof fn law_capabilities_are_what_the_descriptors_say(
    header: Seq<u8>,
    ds: Seq<Seq<u8>>,
    after: Seq<u8>,
)
    requires
        5 <= header.len() <= 255,
        header[0] == header.len(),
        header[1] == 0x0f,
        header[2] + 256 * header[3] == header.len() + chained(ds).len(),
        forall|i: int| 0 <= i < ds.len() ==> is_descriptor(#[trigger] ds[i]) && ds[i].len() >= 3,
    ensures
        ({
            let r = bos_capabilities(header + chained(ds) + after);
            &&& r is Ok
            &&& r->Ok_0.super_speed <==> exists|i: int|
                0 <= i < ds.len() && is_capability(#[trigger] ds[i], 3)
            &&& r->Ok_0.super_speed_plus <==> exists|i: int|
                0 <= i < ds.len() && is_capability(#[trigger] ds[i], 10)
            &&& r->Ok_0.speeds_supported is None <==> forall|i: int|
                0 <= i < ds.len() ==> !(is_capability(#[trigger] ds[i], 3) && ds[i].len() >= 6)
            &&& forall|i: int|
                0 <= i < ds.len() && is_capability(#[trigger] ds[i], 3) && ds[i].len() >= 6 && (
                forall|j: int|
                    i < j < ds.len() ==> !(is_capability(#[trigger] ds[j], 3) && ds[j].len() >= 6))
                    ==> r->Ok_0.speeds_supported is Some && r->Ok_0.speeds_supported->0 == ds[i][4]
                    + 256 * ds[i][5]
        }),
{
    let buf = header + chained(ds) + after;
    bytes::law_numbers_are_little_endian(buf, 2);
    assert(buf[0] == header[0] && buf[1] == header[1]);
    assert(buf[2] == header[2] && buf[3] == header[3]);
    let none = DeviceCapabilities {
        super_speed: false,
        super_speed_plus: false,
        speeds_supported: None,
    };
    lemma_capabilities(header, ds, after, none);
}

proof fn lemma_capabilities(
    before: Seq<u8>,
    ds: Seq<Seq<u8>>,
    after: Seq<u8>,
    seen: DeviceCapabilities,
)
    requires
        forall|i: int| 0 <= i < ds.len() ==> is_descriptor(#[trigger] ds[i]) && ds[i].len() >= 3,
    ensures
        ({
            let r = capabilities_from(
                before + chained(ds) + after,
                before.len() as int,
                (before.len() + chained(ds).len()) as int,
                seen,
            );
            &&& r is Ok
            &&& r->Ok_0.super_speed <==> seen.super_speed || exists|i: int|
                0 <= i < ds.len() && is_capability(#[trigger] ds[i], 3)
            &&& r->Ok_0.super_speed_plus <==> seen.super_speed_plus || exists|i: int|
                0 <= i < ds.len() && is_capability(#[trigger] ds[i], 10)
            &&& (forall|i: int|
                0 <= i < ds.len() ==> !(is_capability(#[trigger] ds[i], 3) && ds[i].len() >= 6))
                ==> r->Ok_0.speeds_supported == seen.speeds_supported
            &&& (exists|i: int|
                0 <= i < ds.len() && is_capability(#[trigger] ds[i], 3) && ds[i].len() >= 6)
                ==> r->Ok_0.speeds_supported is Some
            &&& forall|i: int|
                0 <= i < ds.len() && is_capability(#[trigger] ds[i], 3) && ds[i].len() >= 6 && (
                forall|j: int|
                    i < j < ds.len() ==> !(is_capability(#[trigger] ds[j], 3) && ds[j].len() >= 6))
                    ==> r->Ok_0.speeds_supported is Some && r->Ok_0.speeds_supported->0 == ds[i][4]
                    + 256 * ds[i][5]
        }),
    decreases ds.len(),
{
    let buf = before + chained(ds) + after;
    let at = before.len() as int;
    let end = (before.len() + chained(ds).len()) as int;
    if ds.len() > 0 {
        let d = ds[0];
        let rest = ds.drop_first();
        assert(is_descriptor(d));
        assert forall|i: int| 0 <= i < d.len() implies buf[at + i] == #[trigger] d[i] by {}
        assert(buf[at] == d[0] && buf[at + 1] == d[1] && buf[at + 2] == d[2]);
        if d.len() >= 6 {
            assert(buf[at + 4] == d[4] && buf[at + 5] == d[5]);
        }
        let now = after_capability(seen, buf, at);
        assert forall|i: int| 0 <= i < rest.len() implies is_descriptor(#[trigger] rest[i])
            && rest[i].len() >= 3 by {
            assert(rest[i] == ds[i + 1]);
        }
        lemma_capabilities(before + d, rest, after, now);
        assert(buf =~= (before + d) + chained(rest) + after);
        let r = capabilities_from(buf, at, end, seen);
        assert(r == capabilities_from(buf, at + d.len(), end, now));
        if exists|i: int| 0 <= i < rest.len() && is_capability(#[trigger] rest[i], 3) {
            let i = choose|i: int| 0 <= i < rest.len() && is_capability(#[trigger] rest[i], 3);
            assert(is_capability(ds[i + 1], 3));
        }
        if exists|i: int| 0 <= i < rest.len() && is_capability(#[trigger] rest[i], 10) {
            let i = choose|i: int| 0 <= i < rest.len() && is_capability(#[trigger] rest[i], 10);
            assert(is_capability(ds[i + 1], 10));
        }
        assert forall|i: int| 0 < i < ds.len() implies #[trigger] ds[i] == rest[i - 1] by {}
        assert(r->Ok_0.super_speed <==> seen.super_speed || exists|i: int|
            0 <= i < ds.len() && is_capability(#[trigger] ds[i], 3)) by {
            if exists|i: int| 0 <= i < ds.len() && is_capability(#[trigger] ds[i], 3) {
                let i = choose|i: int| 0 <= i < ds.len() && is_capability(#[trigger] ds[i], 3);
                if i > 0 {
                    assert(is_capability(rest[i - 1], 3));
                }
            }
        }
        assert(r->Ok_0.super_speed_plus <==> seen.super_speed_plus || exists|i: int|
            0 <= i < ds.len() && is_capability(#[trigger] ds[i], 10)) by {
            if exists|i: int| 0 <= i < ds.len() && is_capability(#[trigger] ds[i], 10) {
                let i = choose|i: int| 0 <= i < ds.len() && is_capability(#[trigger] ds[i], 10);
                if i > 0 {
                    assert(is_capability(rest[i - 1], 10));
                }
            }
        }
        if forall|i: int|
            0 <= i < ds.len() ==> !(is_capability(#[trigger] ds[i], 3) && ds[i].len() >= 6) {
            assert forall|i: int| 0 <= i < rest.len() implies !(is_capability(#[trigger] rest[i], 3)
                && rest[i].len() >= 6) by {
                assert(rest[i] == ds[i + 1]);
            }
            assert(!(is_capability(ds[0], 3) && ds[0].len() >= 6));
        } else {
            let i = choose|i: int|
                0 <= i < ds.len() && is_capability(#[trigger] ds[i], 3) && ds[i].len() >= 6;
            if i > 0 {
                assert(is_capability(rest[i - 1], 3) && rest[i - 1].len() >= 6);
            } else if forall|k: int|
                0 <= k < rest.len() ==> !(is_capability(#[trigger] rest[k], 3) && rest[k].len()
                    >= 6) {
                assert(r->Ok_0.speeds_supported == now.speeds_supported);
            }
        }
        assert forall|i: int|
            0 <= i < ds.len() && is_capability(#[trigger] ds[i], 3) && ds[i].len() >= 6 && (forall|
                j: int,
            |
                i < j < ds.len() ==> !(is_capability(#[trigger] ds[j], 3) && ds[j].len() >= 6))
            implies r->Ok_0.speeds_supported is Some && r->Ok_0.speeds_supported->0 == ds[i][4]
            + 256 * ds[i][5] by {
            assert forall|j: int| i - 1 < j < rest.len() && j >= 0 implies !(is_capability(
                #[trigger] rest[j],
                3,
            ) && rest[j].len() >= 6) by {
                assert(rest[j] == ds[j + 1]);
            }
            if i > 0 {
                assert(is_capability(rest[i - 1], 3));
            }
        }
    }
}

/// Which BOS descriptors are refused: one that is too short, one of another type, one of length 0, and one
/// whose next capability has length 0 or reaches behind the end.
pub proof fn law_which_capabilities_are_refused(buf: Seq<u8>)
    requires
        buf.len() <= usize::MAX,
    ensures
        ({
            let r = bos_capabilities(buf);
            let total = buf[2] + 256 * buf[3];
            let end = if buf.len() < total {
                buf.len() as int
            } else {
                total
            };
            let at = buf[0] as int;
            &&& buf.len() < 5 ==> r == Err::<DeviceCapabilities, DescriptorError>(
                DescriptorError::TooShort { need: 5, got: buf.len() as usize },
            )
            &&& buf.len() >= 5 && buf[1] != 0x0f ==> r == Err::<
                DeviceCapabilities,
                DescriptorError,
            >(DescriptorError::WrongType { expected: 0x0f, got: buf[1] })
            &&& buf.len() >= 5 && buf[1] == 0x0f && at == 0 ==> r == Err::<
                DeviceCapabilities,
                DescriptorError,
            >(DescriptorError::ZeroLength { at: 0 })
            &&& buf.len() >= 5 && buf[1] == 0x0f && 0 < at && at + 3 <= end && buf[at] == 0 ==> r
                == Err::<DeviceCapabilities, DescriptorError>(
                DescriptorError::ZeroLength { at: at as usize },
            )
            &&& buf.len() >= 5 && buf[1] == 0x0f && 0 < at && at + 3 <= end && buf[at] != 0 && at
                + buf[at] > end ==> r == Err::<DeviceCapabilities, DescriptorError>(
                DescriptorError::RunsPastEnd {
                    at: at as usize,
                    need: buf[at] as usize,
                    got: (end - at) as usize,
                },
            )
        }),
{
    bytes::law_numbers_are_little_endian(buf, 2);
}

/// A device can run faster than high speed where it has super speed or super speed plus, or where the bit of
/// super speed, worth 8, is set in the supported speeds.
pub proof fn law_which_devices_are_faster_than_high(caps: &DeviceCapabilities, r: bool)
    requires
        call_ensures(DeviceCapabilities::supports_faster_than_high, (caps,), r),
    ensures
        caps.super_speed || caps.super_speed_plus ==> r,
        !caps.super_speed && !caps.super_speed_plus ==> (r <==> (caps.speeds_supported is Some
            && caps.speeds_supported->0 as int % 16 >= 8)),
{
    if caps.speeds_supported is Some {
        let s = caps.speeds_supported->0;
        assert((s / 8 % 2 == 1) == (s % 16 >= 8)) by (bit_vector);
    }
}

/// An endpoint sends to the host where its address is 0x80 or more, is a bulk endpoint where its type is 2, and
/// an interrupt endpoint where it is 3.
pub proof fn law_what_an_endpoint_is(e: &Endpoint, to_host: bool, bulk: bool, interrupt: bool)
    requires
        call_ensures(Endpoint::is_in, (e,), to_host),
        call_ensures(Endpoint::is_bulk, (e,), bulk),
        call_ensures(Endpoint::is_interrupt, (e,), interrupt),
    ensures
        to_host <==> e.address >= 0x80,
        bulk <==> e.transfer_type == 2,
        interrupt <==> e.transfer_type == 3,
{
}

/// A configuration that is parsed has the interfaces that its descriptors add up to, all of them and in order.
pub proof fn law_a_parsed_configuration_has_every_interface(
    header: Seq<u8>,
    ds: Seq<Seq<u8>>,
    after: Seq<u8>,
    steps: Seq<Seq<InterfaceView>>,
    buf: &[u8],
    r: Result<ConfigDescriptor, DescriptorError>,
)
    requires
        9 <= header.len() <= 255,
        header[0] == header.len(),
        header[1] == 2,
        header[2] + 256 * header[3] == header.len() + chained(ds).len(),
        forall|i: int| 0 <= i < ds.len() ==> is_descriptor(#[trigger] ds[i]),
        steps.len() == ds.len() + 1,
        steps[0] == Seq::<InterfaceView>::empty(),
        forall|i: int| 0 <= i < ds.len() ==> joined_by(steps[i], #[trigger] ds[i], steps[i + 1]),
        buf@ == header + chained(ds) + after,
        call_ensures(ConfigDescriptor::parse, (buf,), r),
    ensures
        r is Ok,
        r->Ok_0.interfaces@.len() == steps.last().len(),
        forall|i: int|
            0 <= i < steps.last().len() ==> (#[trigger] r->Ok_0.interfaces@[i])@ == steps.last()[i],
{
    law_a_configuration_is_what_its_descriptors_say(header, ds, after, steps);
    let all = r->Ok_0.interfaces@;
    assert(interface_views(all) == steps.last());
    assert forall|i: int| 0 <= i < steps.last().len() implies (#[trigger] all[i])@
        == steps.last()[i] by {
        assert(interface_views(all)[i] == all[i]@);
    }
}

/// A message tells every number of its fault in full, each in its place.
pub proof fn law_a_message_tells_what_is_wrong(e: &DescriptorError, r: String)
    requires
        call_ensures(DescriptorError::message, (e,), r),
    ensures
        *e matches DescriptorError::TooShort { need, got } ==> r@ == "the descriptor needs "@
            + text::decimal(need as nat) + " bytes, and the buffer holds "@ + text::decimal(
            got as nat,
        ),
        *e matches DescriptorError::WrongType { expected, got } ==> r@ == "the descriptor type is 0x"@
            + text::hex(got as nat, 2) + ", and the expected type is 0x"@ + text::hex(
            expected as nat,
            2,
        ),
        *e matches DescriptorError::ZeroLength { at } ==> r@ == "the descriptor at offset "@
            + text::decimal(at as nat) + " gives a length of 0"@,
        *e matches DescriptorError::RunsPastEnd { at, need, got } ==> r@
            == "the descriptor at offset "@ + text::decimal(at as nat) + " needs "@ + text::decimal(
            need as nat,
        ) + " bytes, and "@ + text::decimal(got as nat) + " bytes remain"@,
{
}

/// A byte that is left behind the last descriptor is ignored, and so are two behind the last capability.
pub proof fn law_what_is_left_at_the_end_is_ignored(
    buf: Seq<u8>,
    at: int,
    end: int,
    seen: Seq<InterfaceView>,
    caps: DeviceCapabilities,
)
    ensures
        end < at + 2 ==> interfaces_from(buf, at, end, seen) == Ok::<
            Seq<InterfaceView>,
            DescriptorError,
        >(seen),
        end < at + 3 ==> capabilities_from(buf, at, end, caps) == Ok::<
            DeviceCapabilities,
            DescriptorError,
        >(caps),
{
}

/// What each capability adds to those before it, wherever it stands: type 3 is super speed, with the supported
/// speeds where the descriptor has 6 bytes, type 10 is super speed plus, and nothing else adds anything. A length
/// of 0 and a length that reaches behind the end are errors.
pub proof fn law_what_a_capability_adds(buf: Seq<u8>, at: int, end: int, seen: DeviceCapabilities)
    requires
        0 <= at,
        at + 3 <= end <= buf.len(),
        buf.len() <= usize::MAX,
    ensures
        ({
            let r = capabilities_from(buf, at, end, seen);
            let len = buf[at] as usize;
            &&& len == 0 ==> r == Err::<DeviceCapabilities, DescriptorError>(
                DescriptorError::ZeroLength { at: at as usize },
            )
            &&& len > 0 && at + len > end ==> r == Err::<DeviceCapabilities, DescriptorError>(
                DescriptorError::RunsPastEnd {
                    at: at as usize,
                    need: len,
                    got: (end - at) as usize,
                },
            )
            &&& len > 0 && at + len <= end ==> r == capabilities_from(
                buf,
                at + len,
                end,
                DeviceCapabilities {
                    super_speed: seen.super_speed || (buf[at + 1] == 0x10 && buf[at + 2] == 3),
                    super_speed_plus: seen.super_speed_plus || (buf[at + 1] == 0x10 && buf[at + 2]
                        == 10),
                    speeds_supported: if buf[at + 1] == 0x10 && buf[at + 2] == 3 && len >= 6 {
                        Some((buf[at + 4] + 256 * buf[at + 5]) as u16)
                    } else {
                        seen.speeds_supported
                    },
                },
            )
        }),
{
}

} // verus!
