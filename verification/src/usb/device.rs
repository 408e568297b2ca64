//! Requests to a USB device, and what their answers mean.
//!
//! One call into the USB library does one transfer with a timeout and returns. This module says
//! what to hand to that call, and reads what comes back. Every request carries a timeout that the
//! library honors.

use vstd::prelude::*;
use vstd::string::*;

use crate::text;
use crate::time::Duration;
use crate::usb::descriptor;
use crate::usb::descriptor::{DescriptorError, DeviceCapabilities, MtpInterface};

verus! {

/// A limit on the count of devices that one enumeration gives.
pub const MAX_DEVICES: usize = 1024;
/// The largest configuration descriptor the host reads, in bytes.
pub const CONFIG_DESCRIPTOR_MAX: usize = 4096;
/// The largest BOS descriptor the host reads, in bytes.
pub const BOS_DESCRIPTOR_MAX: usize = 256;
/// Standard request: get a descriptor.
pub const REQUEST_GET_DESCRIPTOR: u8 = 0x06;
/// Request type: device to host, standard, device.
pub const REQUEST_TYPE_IN_STANDARD_DEVICE: u8 = 0x80;
/// Request type: host to device, class, interface.
pub const REQUEST_TYPE_OUT_CLASS_INTERFACE: u8 = 0x21;
/// The request value of a configuration descriptor. The type sits in the high byte.
pub const DESCRIPTOR_TYPE_CONFIGURATION: u16 = 0x0200;
/// The request value of the BOS descriptor. The type sits in the high byte.
pub const DESCRIPTOR_TYPE_BOS: u16 = 0x0f00;
/// The device reset request of the still imaging class.
pub const PTP_DEVICE_RESET_REQUEST: u8 = 0x66;

/// What a transfer did.
#[derive(Debug, Clone, Copy, PartialEq, Eq, Structural)]
pub enum TransferStatus {
    /// The transfer finished. The device may still have sent fewer bytes than the host asked for.
    Completed,
    /// The transfer failed.
    Error,
    /// The transfer reached the timeout.
    TimedOut,
    /// The host cancelled the transfer.
    Cancelled,
    /// The endpoint is in a halt condition.
    Stall,
    /// The device is gone.
    NoDevice,
    /// The device sent more data than the host asked for.
    Overflow,
    /// A value the library does not define.
    Other(u8),
}

/// The status that a value of the library stands for.
pub open spec fn status_of(v: u8) -> TransferStatus {
    if v == 0 {
        TransferStatus::Completed
    } else if v == 3 {
        TransferStatus::Error
    } else if v == 4 {
        TransferStatus::TimedOut
    } else if v == 5 {
        TransferStatus::Cancelled
    } else if v == 6 {
        TransferStatus::Stall
    } else if v == 7 {
        TransferStatus::NoDevice
    } else if v == 8 {
        TransferStatus::Overflow
    } else {
        TransferStatus::Other(v)
    }
}

impl TransferStatus {
    /// Converts a status value of the library.
    pub fn from_wire(v: u8) -> (r: Self)
        ensures
            r == status_of(v),
    {
        match v {
            0 => TransferStatus::Completed,
            3 => TransferStatus::Error,
            4 => TransferStatus::TimedOut,
            5 => TransferStatus::Cancelled,
            6 => TransferStatus::Stall,
            7 => TransferStatus::NoDevice,
            8 => TransferStatus::Overflow,
            _ => TransferStatus::Other(v),
        }
    }

    /// Tells you if the transfer finished.
    pub fn is_ok(self) -> (r: bool)
        ensures
            r == (self == TransferStatus::Completed),
    {
        self == TransferStatus::Completed
    }

    /// The text of the status.
    pub open spec fn text(self) -> Seq<char> {
        match self {
            TransferStatus::Completed => "completed"@,
            TransferStatus::Error => "error"@,
            TransferStatus::TimedOut => "timed out"@,
            TransferStatus::Cancelled => "cancelled"@,
            TransferStatus::Stall => "endpoint stall"@,
            TransferStatus::NoDevice => "no device"@,
            TransferStatus::Overflow => "overflow"@,
            TransferStatus::Other(v) => "unknown status "@ + text::decimal(v as nat),
        }
    }

    /// Gives the text of the status.
    pub fn message(&self) -> (r: String)
        ensures
            r@ == self.text(),
    {
        let mut s: String = String::new();
        match *self {
            TransferStatus::Completed => {
                s.append("completed");
            },
            TransferStatus::Error => {
                s.append("error");
            },
            TransferStatus::TimedOut => {
                s.append("timed out");
            },
            TransferStatus::Cancelled => {
                s.append("cancelled");
            },
            TransferStatus::Stall => {
                s.append("endpoint stall");
            },
            TransferStatus::NoDevice => {
                s.append("no device");
            },
            TransferStatus::Overflow => {
                s.append("overflow");
            },
            TransferStatus::Other(v) => {
                s.append("unknown status ");
                text::push_decimal(&mut s, v as u128);
            },
        }
        s
    }
}

/// The speed of the USB link to a device.
///
/// The speed limits the rate of a file copy. A host that reports a rate must also report the speed,
/// because a rate has no meaning without the speed.
#[derive(Debug, Clone, Copy, PartialEq, Eq, Structural)]
pub enum LinkSpeed {
    /// The library gives no speed.
    Unknown,
    /// USB 1.0 low speed, 1.5 Mbit each second.
    Low,
    /// USB 1.1 full speed, 12 Mbit each second.
    Full,
    /// USB 2.0 high speed, 480 Mbit each second.
    High,
    /// A speed that changes.
    Variable,
    /// USB 3.0 super speed, 5 Gbit each second.
    Super,
    /// USB 3.1 super speed plus, 10 Gbit each second.
    SuperPlus,
    /// A value the library gives that has no name here.
    Other(u8),
}

/// The speed that a value of the library stands for.
pub open spec fn speed_of(v: u8) -> LinkSpeed {
    if v == 0 {
        LinkSpeed::Unknown
    } else if v == 1 {
        LinkSpeed::Low
    } else if v == 2 {
        LinkSpeed::Full
    } else if v == 3 {
        LinkSpeed::High
    } else if v == 4 {
        LinkSpeed::Variable
    } else if v == 5 {
        LinkSpeed::Super
    } else if v == 6 {
        LinkSpeed::SuperPlus
    } else {
        LinkSpeed::Other(v)
    }
}

impl LinkSpeed {
    /// The rate of the signal in bits each second, where the speed has one.
    pub open spec fn signal_rate(self) -> Option<u64> {
        match self {
            LinkSpeed::Low => Some(1_500_000),
            LinkSpeed::Full => Some(12_000_000),
            LinkSpeed::High => Some(480_000_000),
            LinkSpeed::Super => Some(5_000_000_000),
            LinkSpeed::SuperPlus => Some(10_000_000_000),
            _ => None,
        }
    }

    /// The rate that a bulk transfer is expected to reach in bytes each second.
    pub open spec fn practical_rate(self) -> Option<u64> {
        match self {
            LinkSpeed::Low => Some(150_000),
            LinkSpeed::Full => Some(1_000_000),
            LinkSpeed::High => Some(42_000_000),
            LinkSpeed::Super => Some(400_000_000),
            LinkSpeed::SuperPlus => Some(900_000_000),
            _ => None,
        }
    }

    /// The name of the speed.
    pub open spec fn label(self) -> &'static str {
        match self {
            LinkSpeed::Unknown => "unknown",
            LinkSpeed::Low => "low, USB 1.0",
            LinkSpeed::Full => "full, USB 1.1",
            LinkSpeed::High => "high, USB 2.0",
            LinkSpeed::Variable => "variable",
            LinkSpeed::Super => "super, USB 3.0",
            LinkSpeed::SuperPlus => "super plus, USB 3.1",
            LinkSpeed::Other(_) => "a speed this code does not name",
        }
    }

    /// The text of the speed: the name, with the rate where there is one, and with the value of the
    /// library where the speed has no name.
    pub open spec fn text(self) -> Seq<char> {
        match self.signal_rate() {
            Some(b) => self.label()@ + " ("@ + text::decimal((b / 1_000_000) as nat)
                + " Mbit each second)"@,
            None => match self {
                LinkSpeed::Other(v) => self.label()@ + " ("@ + text::decimal(v as nat) + ")"@,
                _ => self.label()@,
            },
        }
    }

    /// Converts a speed value of the library.
    pub fn from_wire(v: u8) -> (r: Self)
        ensures
            r == speed_of(v),
    {
        match v {
            0 => LinkSpeed::Unknown,
            1 => LinkSpeed::Low,
            2 => LinkSpeed::Full,
            3 => LinkSpeed::High,
            4 => LinkSpeed::Variable,
            5 => LinkSpeed::Super,
            6 => LinkSpeed::SuperPlus,
            _ => LinkSpeed::Other(v),
        }
    }

    /// The rate of the link, in bits each second.
    ///
    /// The value is the rate of the signal. A file copy never reaches the value, because the
    /// protocol needs part of the time.
    pub fn bits_per_second(self) -> (r: Option<u64>)
        ensures
            r == self.signal_rate(),
    {
        match self {
            LinkSpeed::Low => Some(1_500_000),
            LinkSpeed::Full => Some(12_000_000),
            LinkSpeed::High => Some(480_000_000),
            LinkSpeed::Super => Some(5_000_000_000),
            LinkSpeed::SuperPlus => Some(10_000_000_000),
            LinkSpeed::Unknown | LinkSpeed::Variable | LinkSpeed::Other(_) => None,
        }
    }

    /// An estimate of the rate a bulk transfer reaches, in bytes each second.
    ///
    /// The estimate comes from common measurements, and not from a standard. A host uses the
    /// estimate to tell a user whether the link limits the copy, or whether something else does.
    pub fn practical_bytes_per_second(self) -> (r: Option<u64>)
        ensures
            r == self.practical_rate(),
    {
        match self {
            LinkSpeed::Low => Some(150_000),
            LinkSpeed::Full => Some(1_000_000),
            LinkSpeed::High => Some(42_000_000),
            LinkSpeed::Super => Some(400_000_000),
            LinkSpeed::SuperPlus => Some(900_000_000),
            LinkSpeed::Unknown | LinkSpeed::Variable | LinkSpeed::Other(_) => None,
        }
    }

    /// A name for a person to read.
    pub fn name(self) -> (r: &'static str)
        ensures
            r == self.label(),
    {
        match self {
            LinkSpeed::Unknown => "unknown",
            LinkSpeed::Low => "low, USB 1.0",
            LinkSpeed::Full => "full, USB 1.1",
            LinkSpeed::High => "high, USB 2.0",
            LinkSpeed::Variable => "variable",
            LinkSpeed::Super => "super, USB 3.0",
            LinkSpeed::SuperPlus => "super plus, USB 3.1",
            LinkSpeed::Other(_) => "a speed this code does not name",
        }
    }

    /// Gives the text of the speed.
    pub fn message(&self) -> (r: String)
        ensures
            r@ == self.text(),
    {
        let mut s: String = String::new();
        s.append(self.name());
        match self.bits_per_second() {
            Some(b) => {
                s.append(" (");
                text::push_decimal(&mut s, (b / 1_000_000) as u128);
                s.append(" Mbit each second)");
            },
            None => match *self {
                LinkSpeed::Other(v) => {
                    s.append(" (");
                    text::push_decimal(&mut s, v as u128);
                    s.append(")");
                },
                _ => {},
            },
        }
        proof {
            assert(Seq::<char>::empty() + self.label()@ =~= self.label()@);
        }
        s
    }
}

/// A fault in a USB operation.
#[derive(Debug, Clone, Copy, PartialEq, Eq, Structural)]
pub enum UsbError {
    /// The library gives no backend.
    NoBackend,
    /// The host cannot open the device. The value is the code of the library.
    ///
    /// A code of -1 with a connected device often means a permission fault.
    Open(i32),
    /// A control request failed. The value is the code of the library.
    Control(i32),
    /// The host cannot open an endpoint. The value is the code of the library.
    EndpointOpen { endpoint: u8, code: i32 },
    /// A transfer did not finish.
    Transfer { endpoint: u8, status: TransferStatus },
    /// The host sent fewer bytes than the caller asked for.
    ShortWrite { want: usize, got: usize },
    /// The kernel will not release an interface.
    Detach { interface: u8, code: i32 },
    /// The host cannot reset the device. A reset needs root on FreeBSD.
    Reset(i32),
    /// The descriptor does not parse.
    Descriptor(DescriptorError),
    /// The timeout is too large for the library, which takes milliseconds in a `u32`.
    TimeoutTooLarge { millis: u128 },
}

impl vstd::std_specs::convert::FromSpecImpl<DescriptorError> for UsbError {
    open spec fn obeys_from_spec() -> bool {
        true
    }

    open spec fn from_spec(e: DescriptorError) -> Self {
        UsbError::Descriptor(e)
    }
}

impl From<DescriptorError> for UsbError {
    fn from(e: DescriptorError) -> (r: Self) {
        UsbError::Descriptor(e)
    }
}

impl UsbError {
    /// The text of the fault.
    pub open spec fn text(self) -> Seq<char> {
        match self {
            UsbError::NoBackend => "the library gives no USB backend"@,
            UsbError::Open(c) => "cannot open the device, code "@ + text::signed_decimal(c as int)
                + ". Check that you belong to the operator group"@,
            UsbError::Control(c) => "the control request failed, code "@ + text::signed_decimal(
                c as int,
            ),
            UsbError::EndpointOpen { endpoint, code } => "cannot open endpoint 0x"@ + text::hex(
                endpoint as nat,
                2,
            ) + ", code "@ + text::signed_decimal(code as int),
            UsbError::Transfer { endpoint, status } => "the transfer on endpoint 0x"@ + text::hex(
                endpoint as nat,
                2,
            ) + " gave: "@ + status.text(),
            UsbError::ShortWrite { want, got } => "the host sent "@ + text::decimal(got as nat)
                + " bytes, and the caller asked for "@ + text::decimal(want as nat),
            UsbError::Detach { interface, code } => "the kernel will not release interface "@
                + text::decimal(interface as nat) + ", code "@ + text::signed_decimal(code as int),
            UsbError::Reset(c) => "cannot reset the device, code "@ + text::signed_decimal(
                c as int,
            ) + ". A reset needs root on FreeBSD"@,
            UsbError::Descriptor(e) => "the descriptor does not parse: "@ + e.text(),
            UsbError::TimeoutTooLarge { millis } => "the timeout of "@ + text::decimal(
                millis as nat,
            ) + " ms is larger than the library accepts"@,
        }
    }

    /// Gives the text of the fault.
    pub fn message(&self) -> (r: String)
        ensures
            r@ == self.text(),
    {
        let mut s: String = String::new();
        match *self {
            UsbError::NoBackend => {
                s.append("the library gives no USB backend");
            },
            UsbError::Open(c) => {
                s.append("cannot open the device, code ");
                text::push_signed_decimal(&mut s, c);
                s.append(". Check that you belong to the operator group");
            },
            UsbError::Control(c) => {
                s.append("the control request failed, code ");
                text::push_signed_decimal(&mut s, c);
            },
            UsbError::EndpointOpen { endpoint, code } => {
                s.append("cannot open endpoint 0x");
                text::push_hex(&mut s, endpoint as u64, 2);
                s.append(", code ");
                text::push_signed_decimal(&mut s, code);
            },
            UsbError::Transfer { endpoint, status } => {
                s.append("the transfer on endpoint 0x");
                text::push_hex(&mut s, endpoint as u64, 2);
                s.append(" gave: ");
                s.append(status.message().as_str());
            },
            UsbError::ShortWrite { want, got } => {
                s.append("the host sent ");
                text::push_decimal(&mut s, got as u128);
                s.append(" bytes, and the caller asked for ");
                text::push_decimal(&mut s, want as u128);
            },
            UsbError::Detach { interface, code } => {
                s.append("the kernel will not release interface ");
                text::push_decimal(&mut s, interface as u128);
                s.append(", code ");
                text::push_signed_decimal(&mut s, code);
            },
            UsbError::Reset(c) => {
                s.append("cannot reset the device, code ");
                text::push_signed_decimal(&mut s, c);
                s.append(". A reset needs root on FreeBSD");
            },
            UsbError::Descriptor(e) => {
                s.append("the descriptor does not parse: ");
                s.append(e.message().as_str());
            },
            UsbError::TimeoutTooLarge { millis } => {
                s.append("the timeout of ");
                text::push_decimal(&mut s, millis);
                s.append(" ms is larger than the library accepts");
            },
        }
        s
    }
}

/// The timeout that a span of time becomes: whole milliseconds, never zero, and an error where a
/// `u32` cannot hold them.
pub open spec fn library_timeout(d: Duration) -> Result<u32, UsbError> {
    if d.millis() > u32::MAX {
        Err(UsbError::TimeoutTooLarge { millis: d.millis() as u128 })
    } else if d.millis() == 0 {
        Ok(1)
    } else {
        Ok(d.millis() as u32)
    }
}

/// Converts a duration to the millisecond count the library takes.
///
/// A timeout of 0 means no timeout in the library. The function raises 0 to 1, so a caller cannot
/// ask for an endless wait by accident.
pub fn timeout_millis(d: Duration) -> (r: Result<u32, UsbError>)
    ensures
        r == library_timeout(d),
        r is Ok ==> r->Ok_0 >= 1,
{
    let ms: u128 = d.as_millis();
    if ms > 0xffff_ffff {
        return Err(UsbError::TimeoutTooLarge { millis: ms });
    }
    if ms == 0 {
        Ok(1)
    } else {
        Ok(ms as u32)
    }
}

/// A control request, ready for the library.
#[derive(Debug, Clone, Copy, PartialEq, Eq, Structural)]
pub struct ControlRequest {
    /// The direction, the kind and the recipient of the request.
    pub request_type: u8,
    /// The request.
    pub request: u8,
    /// The value of the request.
    pub value: u16,
    /// The index of the request.
    pub index: u16,
    /// The bytes of data the request carries. A request with none carries no buffer.
    pub length: u16,
    /// The timeout, in milliseconds.
    pub timeout_ms: u32,
}

/// The USB backend, which owns the list of devices.
#[derive(Debug)]
pub struct Backend {
    handles: Vec<DeviceHandle>,
}

impl View for Backend {
    type V = Seq<DeviceHandle>;

    closed spec fn view(&self) -> Seq<DeviceHandle> {
        self.handles@
    }
}

impl Backend {
    /// Starts with a backend that the library gave, or with the fault that it gave none.
    pub fn new(given: bool) -> (r: Result<Self, UsbError>)
        ensures
            match r {
                Ok(b) => given && b@.len() == 0,
                Err(e) => !given && e == UsbError::NoBackend,
            },
    {
        if given {
            Ok(Backend { handles: Vec::new() })
        } else {
            Err(UsbError::NoBackend)
        }
    }

    /// Takes the next device that the library names, and says whether to ask for one more.
    ///
    /// The list stops at `MAX_DEVICES`, so a library fault cannot make it grow without end.
    pub fn add_next(&mut self, next: Option<DeviceHandle>) -> (r: bool)
        ensures
            match next {
                Some(d) => if old(self)@.len() < MAX_DEVICES {
                    final(self)@ == old(self)@.push(d) && r == (final(self)@.len() < MAX_DEVICES)
                } else {
                    final(self)@ == old(self)@ && !r
                },
                None => final(self)@ == old(self)@ && !r,
            },
    {
        match next {
            Some(d) => {
                if self.handles.len() >= MAX_DEVICES {
                    return false;
                }
                self.handles.push(d);
                self.handles.len() < MAX_DEVICES
            },
            None => false,
        }
    }

    /// Lists the devices the host can see, in the order in which the library named them.
    pub fn devices(&self) -> (r: &[DeviceHandle])
        ensures
            r@ == self@,
    {
        self.handles.as_slice()
    }
}

/// A device the host can see but has not opened.
#[derive(Debug, Clone, Copy, PartialEq, Eq, Structural)]
pub struct DeviceHandle {
    /// The bus of the device.
    pub bus: u8,
    /// The address of the device on the bus.
    pub address: u8,
    /// The vendor identifier of the device.
    pub vendor_id: u16,
    /// The product identifier of the device.
    pub product_id: u16,
    /// The speed value that the library gives for the device.
    pub speed_value: u8,
}

impl DeviceHandle {
    /// The bus number of the device.
    pub fn bus(&self) -> (r: u8)
        ensures
            r == self.bus,
    {
        self.bus
    }

    /// The address of the device on the bus.
    pub fn address(&self) -> (r: u8)
        ensures
            r == self.address,
    {
        self.address
    }

    /// The speed of the link to the device.
    pub fn speed(&self) -> (r: LinkSpeed)
        ensures
            r == speed_of(self.speed_value),
    {
        LinkSpeed::from_wire(self.speed_value)
    }

    /// The vendor and product identifiers of the device.
    pub fn ids(&self) -> (r: (u16, u16))
        ensures
            r == (self.vendor_id, self.product_id),
    {
        (self.vendor_id, self.product_id)
    }

    /// Takes the code that the library gave for opening the device.
    pub fn open(self, code: i32) -> (r: Result<OpenDevice, UsbError>)
        ensures
            r == if code != 0 {
                Err::<OpenDevice, UsbError>(UsbError::Open(code))
            } else {
                Ok::<OpenDevice, UsbError>(OpenDevice { speed_value: self.speed_value })
            },
    {
        if code != 0 {
            return Err(UsbError::Open(code));
        }
        Ok(OpenDevice { speed_value: self.speed_value })
    }
}

/// A device the host has opened.
#[derive(Debug, Clone, Copy, PartialEq, Eq, Structural)]
pub struct OpenDevice {
    /// The speed value that the library gives for the device.
    pub speed_value: u8,
}

/// Where the text in a buffer of the library ends: at its first zero byte, or at the end of the
/// buffer.
pub open spec fn text_end(buf: Seq<u8>, i: int) -> int
    decreases buf.len() - i,
{
    if i >= buf.len() {
        buf.len() as int
    } else if buf[i] == 0 {
        i
    } else {
        text_end(buf, i + 1)
    }
}

/// The string that an answer of the library holds. An answer that is a fault, is empty or is not
/// UTF-8 gives none, and string 0 is no string.
pub open spec fn string_answer(index: u8, code: i32, buf: Seq<u8>) -> Option<Seq<char>> {
    let head = buf.take(text_end(buf, 0));
    if index == 0 || code != 0 || !vstd::utf8::valid_utf8(head) || head.len() == 0 {
        None
    } else {
        Some(vstd::utf8::decode_utf8(head))
    }
}

/// The request with these fields, or the fault of its timeout.
pub open spec fn control(
    request_type: u8,
    request: u8,
    value: u16,
    index: u16,
    capacity: usize,
    timeout: Duration,
) -> Result<ControlRequest, UsbError> {
    match library_timeout(timeout) {
        Ok(timeout_ms) => Ok(
            ControlRequest {
                request_type,
                request,
                value,
                index,
                length: capacity as u16,
                timeout_ms,
            },
        ),
        Err(e) => Err(e),
    }
}

impl OpenDevice {
    /// The speed of the link to the device.
    pub fn speed(&self) -> (r: LinkSpeed)
        ensures
            r == speed_of(self.speed_value),
    {
        LinkSpeed::from_wire(self.speed_value)
    }

    /// Builds one control request.
    ///
    /// `capacity` is 0 for a request that carries no data.
    pub fn control_request(
        &self,
        request_type: u8,
        request: u8,
        value: u16,
        index: u16,
        capacity: usize,
        timeout: Duration,
    ) -> (r: Result<ControlRequest, UsbError>)
        ensures
            r == control(request_type, request, value, index, capacity, timeout),
    {
        let timeout_ms: u32 = timeout_millis(timeout)?;
        Ok(
            ControlRequest {
                request_type,
                request,
                value,
                index,
                length: capacity as u16,
                timeout_ms,
            },
        )
    }

    /// Reads the answer of a control request: the bytes that the device sent, or the fault.
    pub fn control_answer(&self, code: i32, buf: Vec<u8>, actual: u16) -> (r: Result<
        Vec<u8>,
        UsbError,
    >)
        ensures
            match r {
                Ok(v) => code == 0 && v@ == (if actual < buf@.len() {
                    buf@.take(actual as int)
                } else {
                    buf@
                }),
                Err(e) => code != 0 && e == UsbError::Control(code),
            },
    {
        if code != 0 {
            return Err(UsbError::Control(code));
        }
        let mut out: Vec<u8> = buf;
        out.truncate(actual as usize);
        Ok(out)
    }

    /// The request that reads the raw configuration descriptor.
    pub fn config_descriptor_raw(&self, timeout: Duration) -> (r: Result<ControlRequest, UsbError>)
        ensures
            r == control(
                REQUEST_TYPE_IN_STANDARD_DEVICE,
                REQUEST_GET_DESCRIPTOR,
                DESCRIPTOR_TYPE_CONFIGURATION,
                0,
                CONFIG_DESCRIPTOR_MAX,
                timeout,
            ),
    {
        self.control_request(
            REQUEST_TYPE_IN_STANDARD_DEVICE,
            REQUEST_GET_DESCRIPTOR,
            DESCRIPTOR_TYPE_CONFIGURATION,
            0,
            CONFIG_DESCRIPTOR_MAX,
            timeout,
        )
    }

    /// The request that reads the raw BOS descriptor.
    ///
    /// The descriptor says what the device can do, and the answer does not change with the speed of
    /// the link. A device that has no BOS descriptor answers with a fault, and that answer means
    /// the device runs at high speed at most.
    pub fn bos_descriptor_raw(&self, timeout: Duration) -> (r: Result<ControlRequest, UsbError>)
        ensures
            r == control(
                REQUEST_TYPE_IN_STANDARD_DEVICE,
                REQUEST_GET_DESCRIPTOR,
                DESCRIPTOR_TYPE_BOS,
                0,
                BOS_DESCRIPTOR_MAX,
                timeout,
            ),
    {
        self.control_request(
            REQUEST_TYPE_IN_STANDARD_DEVICE,
            REQUEST_GET_DESCRIPTOR,
            DESCRIPTOR_TYPE_BOS,
            0,
            BOS_DESCRIPTOR_MAX,
            timeout,
        )
    }

    /// What the device says it can do, from its BOS descriptor.
    pub fn capabilities(&self, raw: Result<Vec<u8>, UsbError>) -> (r: Result<
        DeviceCapabilities,
        UsbError,
    >)
        ensures
            r == (match raw {
                Ok(bytes) => match descriptor::bos_capabilities(bytes@) {
                    Ok(c) => Ok::<DeviceCapabilities, UsbError>(c),
                    Err(e) => Err(UsbError::Descriptor(e)),
                },
                Err(e) => Err(e),
            }),
    {
        match raw {
            Ok(bytes) => match DeviceCapabilities::parse(bytes.as_slice()) {
                Ok(c) => Ok(c),
                Err(e) => Err(UsbError::from(e)),
            },
            Err(e) => Err(e),
        }
    }

    /// Whether a string index is worth a request. Index 0 means the device gives no name.
    pub fn has_string(&self, index: u8) -> (r: bool)
        ensures
            r == (index != 0),
    {
        index != 0
    }

    /// The string that the library read for an index.
    ///
    /// The function gives `None` when the device gives no string. The library ends the string with
    /// a zero byte.
    pub fn string_descriptor(&self, index: u8, code: i32, buf: &[u8]) -> (r: Option<String>)
        ensures
            match r {
                Some(s) => string_answer(index, code, buf@) == Some(s@),
                None => string_answer(index, code, buf@) is None,
            },
    {
        if !self.has_string(index) || code != 0 {
            return None;
        }
        let mut end: usize = 0;
        while end < buf.len() && buf[end] != 0
            invariant
                end <= buf@.len(),
                text_end(buf@, 0) == text_end(buf@, end as int),
            decreases buf@.len() - end,
        {
            end = end + 1;
        }
        proof {
            assert(buf@.take(end as int) =~= buf@.subrange(0, end as int));
        }
        if end == 0 {
            return None;
        }
        let mut bytes: Vec<u8> = Vec::new();
        bytes.extend_from_slice(vstd::slice::slice_subrange(buf, 0, end));
        proof {
            assert(bytes@ =~= buf@.take(end as int));
        }
        text::from_utf8(bytes)
    }

    /// The class request to an interface, with no data.
    pub fn class_request_out(&self, request: u8, value: u16, interface: u8, timeout: Duration) -> (r:
        Result<ControlRequest, UsbError>)
        ensures
            r == control(
                REQUEST_TYPE_OUT_CLASS_INTERFACE,
                request,
                value,
                interface as u16,
                0,
                timeout,
            ),
    {
        self.control_request(
            REQUEST_TYPE_OUT_CLASS_INTERFACE,
            request,
            value,
            interface as u16,
            0,
            timeout,
        )
    }

    /// The request that resets the PTP state of the device.
    ///
    /// The request puts the protocol of the device in the state that follows a connect, and closes
    /// any open session. A program that stops in the middle of a data phase leaves the device in a
    /// state where the device answers no command, and this request repairs that state.
    pub fn ptp_device_reset(&self, interface: u8, timeout: Duration) -> (r: Result<
        ControlRequest,
        UsbError,
    >)
        ensures
            r == control(
                REQUEST_TYPE_OUT_CLASS_INTERFACE,
                PTP_DEVICE_RESET_REQUEST,
                0,
                interface as u16,
                0,
                timeout,
            ),
    {
        self.class_request_out(PTP_DEVICE_RESET_REQUEST, 0, interface, timeout)
    }

    /// Whether a kernel driver holds an interface, from the code that the library gave.
    pub fn kernel_driver_active(&self, code: i32) -> (r: bool)
        ensures
            r == (code == 0),
    {
        code == 0
    }

    /// What the answer to a detach means.
    pub fn detach_kernel_driver(&self, interface: u8, code: i32) -> (r: Result<(), UsbError>)
        ensures
            r == (if code == 0 {
                Ok::<(), UsbError>(())
            } else {
                Err(UsbError::Detach { interface, code })
            }),
    {
        if code != 0 {
            return Err(UsbError::Detach { interface, code });
        }
        Ok(())
    }

    /// What the answer to a reset means.
    pub fn reset(&self, code: i32) -> (r: Result<(), UsbError>)
        ensures
            r == (if code == 0 {
                Ok::<(), UsbError>(())
            } else {
                Err(UsbError::Reset(code))
            }),
    {
        if code != 0 {
            return Err(UsbError::Reset(code));
        }
        Ok(())
    }

    /// Takes the device with the two bulk endpoints of an MTP interface, from what opening each of
    /// them gave. The endpoint that sends to the device opens first.
    pub fn into_mtp(self, iface: &MtpInterface, write: Option<i32>, read: Option<i32>) -> (r:
        Result<MtpDevice, UsbError>)
        ensures
            r == (match opened(iface.bulk_out, write) {
                Err(e) => Err::<MtpDevice, UsbError>(e),
                Ok(write) => match opened(iface.bulk_in, read) {
                    Err(e) => Err(e),
                    Ok(read) => Ok(
                        MtpDevice { channels: MtpChannels { write, read }, device: self },
                    ),
                },
            }),
    {
        let write = open_transfer(iface.bulk_out, write)?;
        let read = open_transfer(iface.bulk_in, read)?;
        Ok(MtpDevice { channels: MtpChannels { write, read }, device: self })
    }
}

/// The channel that opening an endpoint gave: `None` where the device has no transfer left, and
/// otherwise the code of the library.
pub open spec fn opened(endpoint: u8, answer: Option<i32>) -> Result<BulkChannel, UsbError> {
    match answer {
        None => Err(UsbError::EndpointOpen { endpoint, code: (-1) as i32 }),
        Some(code) => if code == 0 {
            Ok(BulkChannel { endpoint })
        } else {
            Err(UsbError::EndpointOpen { endpoint, code })
        },
    }
}

/// Opens one transfer for an endpoint, from what the library answered.
pub fn open_transfer(endpoint: u8, answer: Option<i32>) -> (r: Result<BulkChannel, UsbError>)
    ensures
        r == opened(endpoint, answer),
{
    match answer {
        None => Err(UsbError::EndpointOpen { endpoint, code: -1 }),
        Some(code) => {
            if code != 0 {
                return Err(UsbError::EndpointOpen { endpoint, code });
            }
            Ok(BulkChannel { endpoint })
        },
    }
}

/// A device with both MTP bulk endpoints open.
#[derive(Debug, Clone, Copy, PartialEq, Eq, Structural)]
pub struct MtpDevice {
    /// The two bulk channels.
    pub channels: MtpChannels,
    /// The device.
    pub device: OpenDevice,
}

impl MtpDevice {
    /// The two bulk channels.
    pub fn channels(&self) -> (r: MtpChannels)
        ensures
            r == self.channels,
    {
        self.channels
    }

    /// The speed of the link to the device.
    pub fn speed(&self) -> (r: LinkSpeed)
        ensures
            r == speed_of(self.device.speed_value),
    {
        self.device.speed()
    }

    /// What the device says it can do, from its BOS descriptor.
    pub fn capabilities(&self, raw: Result<Vec<u8>, UsbError>) -> (r: Result<
        DeviceCapabilities,
        UsbError,
    >)
        ensures
            r == (match raw {
                Ok(bytes) => match descriptor::bos_capabilities(bytes@) {
                    Ok(c) => Ok::<DeviceCapabilities, UsbError>(c),
                    Err(e) => Err(UsbError::Descriptor(e)),
                },
                Err(e) => Err(e),
            }),
    {
        self.device.capabilities(raw)
    }

    /// What the answer to a reset means.
    pub fn reset(&self, code: i32) -> (r: Result<(), UsbError>)
        ensures
            r == (if code == 0 {
                Ok::<(), UsbError>(())
            } else {
                Err(UsbError::Reset(code))
            }),
    {
        self.device.reset(code)
    }
}

/// The two bulk channels of an MTP interface.
#[derive(Debug, Clone, Copy, PartialEq, Eq, Structural)]
pub struct MtpChannels {
    /// The channel that sends data to the device.
    pub write: BulkChannel,
    /// The channel that reads data from the device.
    pub read: BulkChannel,
}

/// One bulk endpoint, open for transfers.
#[derive(Debug, Clone, Copy, PartialEq, Eq, Structural)]
pub struct BulkChannel {
    /// The address of the endpoint.
    pub endpoint: u8,
}

/// One bulk transfer, ready for the library.
#[derive(Debug, Clone, Copy, PartialEq, Eq, Structural)]
pub struct Transfer {
    /// The endpoint of the transfer.
    pub endpoint: u8,
    /// The size of the buffer, in bytes.
    pub length: u32,
    /// The timeout, in milliseconds.
    pub timeout_ms: u32,
}

/// The transfer of a buffer of this size, or the fault of its timeout.
pub open spec fn transfer_of(endpoint: u8, len: int, timeout: Duration) -> Result<
    Transfer,
    UsbError,
> {
    match library_timeout(timeout) {
        Ok(timeout_ms) => Ok(Transfer { endpoint, length: len as u32, timeout_ms }),
        Err(e) => Err(e),
    }
}

/// What the answer to a transfer means: the count of bytes, where the transfer finished.
pub open spec fn transferred(endpoint: u8, status: u8, actual: u32) -> Result<usize, UsbError> {
    if status_of(status) == TransferStatus::Completed {
        Ok(actual as usize)
    } else {
        Err(UsbError::Transfer { endpoint, status: status_of(status) })
    }
}

impl BulkChannel {
    /// The address of the endpoint.
    pub fn endpoint(&self) -> (r: u8)
        ensures
            r == self.endpoint,
    {
        self.endpoint
    }

    /// One transfer of a buffer of this size.
    fn transfer(&self, len: usize, timeout: Duration) -> (r: Result<Transfer, UsbError>)
        ensures
            r == transfer_of(self.endpoint, len as int, timeout),
    {
        let timeout_ms: u32 = timeout_millis(timeout)?;
        Ok(Transfer { endpoint: self.endpoint, length: len as u32, timeout_ms })
    }

    /// The transfer that sends bytes to the device, and stops at the timeout.
    pub fn write(&self, data: &[u8], timeout: Duration) -> (r: Result<Transfer, UsbError>)
        ensures
            r == transfer_of(self.endpoint, data@.len() as int, timeout),
    {
        self.transfer(data.len(), timeout)
    }

    /// What the answer to a write means. A device that took fewer bytes than the host sent is a
    /// fault.
    pub fn write_answer(&self, want: usize, status: u8, actual: u32) -> (r: Result<usize, UsbError>)
        ensures
            r == (match transferred(self.endpoint, status, actual) {
                Ok(n) => if n == want {
                    Ok::<usize, UsbError>(n)
                } else {
                    Err(UsbError::ShortWrite { want, got: n })
                },
                Err(e) => Err(e),
            }),
    {
        let n: usize = self.read_answer(status, actual)?;
        if n != want {
            return Err(UsbError::ShortWrite { want, got: n });
        }
        Ok(n)
    }

    /// The transfer that reads bytes from the device, and stops at the timeout.
    pub fn read(&self, capacity: usize, timeout: Duration) -> (r: Result<Transfer, UsbError>)
        ensures
            r == transfer_of(self.endpoint, capacity as int, timeout),
    {
        self.transfer(capacity, timeout)
    }

    /// What the answer to a read means. A device may send fewer bytes than the buffer holds.
    pub fn read_answer(&self, status: u8, actual: u32) -> (r: Result<usize, UsbError>)
        ensures
            r == transferred(self.endpoint, status, actual),
    {
        let status = TransferStatus::from_wire(status);
        if !status.is_ok() {
            return Err(UsbError::Transfer { endpoint: self.endpoint, status });
        }
        Ok(actual as usize)
    }
}

/// No request waits without end: every request that is built has a timeout of at least one
/// millisecond, and the timeout is never longer than the caller asked for, rounded up to that
/// millisecond.
pub proof fn law_every_request_has_a_timeout(
    request_type: u8,
    request: u8,
    value: u16,
    index: u16,
    capacity: usize,
    endpoint: u8,
    len: int,
    timeout: Duration,
)
    requires
        timeout.nanos() >= 0,
    ensures
        control(request_type, request, value, index, capacity, timeout) is Ok <==> timeout.millis()
            <= u32::MAX,
        transfer_of(endpoint, len, timeout) is Ok <==> timeout.millis() <= u32::MAX,
        match control(request_type, request, value, index, capacity, timeout) {
            Ok(r) => 1 <= r.timeout_ms && (r.timeout_ms == 1 || r.timeout_ms == timeout.millis()),
            Err(_) => true,
        },
        match transfer_of(endpoint, len, timeout) {
            Ok(t) => 1 <= t.timeout_ms && (t.timeout_ms == 1 || t.timeout_ms == timeout.millis()),
            Err(_) => true,
        },
{
}

/// What a timeout is for the library: the whole milliseconds of the span, never 0, and an error where they do
/// not fit in 32 bits.
pub proof fn law_what_the_library_waits(d: Duration, r: Result<u32, UsbError>)
    requires
        call_ensures(timeout_millis, (d,), r),
        d.nanos() >= 0,
    ensures
        d.nanos() < 1_000_000 ==> r == Ok::<u32, UsbError>(1),
        1_000_000 <= d.nanos() < 0x1_0000_0000 * 1_000_000 ==> r is Ok && r->Ok_0 * 1_000_000
            <= d.nanos() < (r->Ok_0 + 1) * 1_000_000,
        d.nanos() >= 0x1_0000_0000 * 1_000_000 ==> r is Err && r->Err_0 is TimeoutTooLarge
            && r->Err_0->TimeoutTooLarge_millis * 1_000_000 <= d.nanos(),
{
}

/// A control request carries every argument: the type, the request, the value, the index, room for as many
/// bytes as asked for, and the timeout.
pub proof fn law_a_control_request_carries_its_arguments(
    dev: &OpenDevice,
    request_type: u8,
    request: u8,
    value: u16,
    index: u16,
    capacity: usize,
    timeout: Duration,
    wait: Result<u32, UsbError>,
    r: Result<ControlRequest, UsbError>,
)
    requires
        call_ensures(timeout_millis, (timeout,), wait),
        call_ensures(
            OpenDevice::control_request,
            (dev, request_type, request, value, index, capacity, timeout),
            r,
        ),
    ensures
        wait is Err ==> r == Err::<ControlRequest, UsbError>(wait->Err_0),
        wait is Ok ==> {
            &&& r is Ok
            &&& r->Ok_0.request_type == request_type
            &&& r->Ok_0.request == request
            &&& r->Ok_0.value == value
            &&& r->Ok_0.index == index
            &&& capacity <= 0xffff ==> r->Ok_0.length == capacity
            &&& r->Ok_0.timeout_ms == wait->Ok_0
        },
{
}

/// The descriptors of a device are asked for by the standard request 6 to the device, with the type of the
/// descriptor in the value, and a reset of the session goes to the interface as the class request 0x66.
pub proof fn law_how_descriptors_are_asked_for(
    dev: &OpenDevice,
    timeout: Duration,
    interface: u8,
    config: Result<ControlRequest, UsbError>,
    bos: Result<ControlRequest, UsbError>,
    reset: Result<ControlRequest, UsbError>,
)
    requires
        call_ensures(OpenDevice::config_descriptor_raw, (dev, timeout), config),
        call_ensures(OpenDevice::bos_descriptor_raw, (dev, timeout), bos),
        call_ensures(OpenDevice::ptp_device_reset, (dev, interface, timeout), reset),
    ensures
        config is Ok ==> {
            &&& config->Ok_0.request_type == 0x80
            &&& config->Ok_0.request == 6
            &&& config->Ok_0.value == 0x0200
            &&& config->Ok_0.index == 0
            &&& config->Ok_0.length == 4096
        },
        bos is Ok ==> {
            &&& bos->Ok_0.request_type == 0x80
            &&& bos->Ok_0.request == 6
            &&& bos->Ok_0.value == 0x0f00
            &&& bos->Ok_0.index == 0
            &&& bos->Ok_0.length == 256
        },
        reset is Ok ==> {
            &&& reset->Ok_0.request_type == 0x21
            &&& reset->Ok_0.request == 0x66
            &&& reset->Ok_0.value == 0
            &&& reset->Ok_0.index == interface
            &&& reset->Ok_0.length == 0
        },
        config is Ok <==> timeout.millis() <= u32::MAX,
        bos is Ok <==> config is Ok,
        reset is Ok <==> config is Ok,
{
}

/// A request of a class carries its arguments, with no data.
pub proof fn law_a_class_request_carries_its_arguments(
    dev: &OpenDevice,
    request: u8,
    value: u16,
    interface: u8,
    timeout: Duration,
    r: Result<ControlRequest, UsbError>,
)
    requires
        call_ensures(OpenDevice::class_request_out, (dev, request, value, interface, timeout), r),
    ensures
        r is Ok <==> timeout.millis() <= u32::MAX,
        r is Ok ==> {
            &&& r->Ok_0.request_type == 0x21
            &&& r->Ok_0.request == request
            &&& r->Ok_0.value == value
            &&& r->Ok_0.index == interface
            &&& r->Ok_0.length == 0
        },
{
}

/// What the answer to a control request gives: the bytes that arrived, up to the size of the buffer, and a
/// fault with its code otherwise.
pub proof fn law_what_a_control_answer_gives(
    dev: &OpenDevice,
    code: i32,
    buf: Vec<u8>,
    actual: u16,
    r: Result<Vec<u8>, UsbError>,
)
    requires
        call_ensures(OpenDevice::control_answer, (dev, code, buf, actual), r),
    ensures
        code != 0 ==> r == Err::<Vec<u8>, UsbError>(UsbError::Control(code)),
        code == 0 ==> {
            &&& r is Ok
            &&& r->Ok_0@.len() <= buf@.len()
            &&& actual <= buf@.len() ==> r->Ok_0@.len() == actual
            &&& actual > buf@.len() ==> r->Ok_0@.len() == buf@.len()
            &&& forall|i: int| 0 <= i < r->Ok_0@.len() ==> #[trigger] r->Ok_0@[i] == buf@[i]
        },
{
}

/// A bulk transfer names its endpoint and as many bytes as there are to write, or as there is room for.
pub proof fn law_a_transfer_has_the_size_of_its_data(
    ch: &BulkChannel,
    data: &[u8],
    capacity: usize,
    timeout: Duration,
    wait: Result<u32, UsbError>,
    w: Result<Transfer, UsbError>,
    r: Result<Transfer, UsbError>,
)
    requires
        call_ensures(timeout_millis, (timeout,), wait),
        call_ensures(BulkChannel::write, (ch, data, timeout), w),
        call_ensures(BulkChannel::read, (ch, capacity, timeout), r),
    ensures
        wait is Err ==> w == Err::<Transfer, UsbError>(wait->Err_0) && r == Err::<Transfer, UsbError>(
            wait->Err_0,
        ),
        wait is Ok ==> {
            &&& w is Ok && r is Ok
            &&& w->Ok_0.endpoint == ch.endpoint && r->Ok_0.endpoint == ch.endpoint
            &&& data@.len() <= u32::MAX ==> w->Ok_0.length == data@.len()
            &&& capacity <= u32::MAX ==> r->Ok_0.length == capacity
            &&& w->Ok_0.timeout_ms == wait->Ok_0 && r->Ok_0.timeout_ms == wait->Ok_0
        },
{
}

/// A transfer succeeds exactly where its status is 0, and then gives the count that was transferred. A write
/// also needs that count to be the one that was asked for.
pub proof fn law_what_a_transfer_gives(
    ch: &BulkChannel,
    want: usize,
    status: u8,
    actual: u32,
    kind: TransferStatus,
    w: Result<usize, UsbError>,
    r: Result<usize, UsbError>,
)
    requires
        call_ensures(TransferStatus::from_wire, (status,), kind),
        call_ensures(BulkChannel::write_answer, (ch, want, status, actual), w),
        call_ensures(BulkChannel::read_answer, (ch, status, actual), r),
    ensures
        status == 0 ==> r is Ok && r->Ok_0 == actual,
        status == 0 && actual == want ==> w is Ok && w->Ok_0 == want,
        status == 0 && actual != want ==> w is Err && w->Err_0 is ShortWrite
            && w->Err_0->ShortWrite_want == want && w->Err_0->ShortWrite_got == actual,
        status != 0 ==> r == Err::<usize, UsbError>(
            UsbError::Transfer { endpoint: ch.endpoint, status: kind },
        ) && w == Err::<usize, UsbError>(
            UsbError::Transfer { endpoint: ch.endpoint, status: kind },
        ),
{
}

/// The meaning of each status of a transfer, and of no other value.
pub proof fn law_what_a_status_means(v: u8, r: TransferStatus, ok: bool)
    requires
        call_ensures(TransferStatus::from_wire, (v,), r),
        call_ensures(TransferStatus::is_ok, (r,), ok),
    ensures
        r is Completed <==> v == 0,
        ok <==> v == 0,
        r is Error <==> v == 3,
        r is TimedOut <==> v == 4,
        r is Cancelled <==> v == 5,
        r is Stall <==> v == 6,
        r is NoDevice <==> v == 7,
        r is Overflow <==> v == 8,
        r is Other <==> v == 1 || v == 2 || v > 8,
        r is Other ==> r->Other_0 == v,
{
}

/// The meaning of each speed of a link, with what it signals each second and what it can carry. No link
/// carries more than it signals.
pub proof fn law_what_a_speed_means(v: u8, r: LinkSpeed, bits: Option<u64>, rate: Option<u64>)
    requires
        call_ensures(LinkSpeed::from_wire, (v,), r),
        call_ensures(LinkSpeed::bits_per_second, (r,), bits),
        call_ensures(LinkSpeed::practical_bytes_per_second, (r,), rate),
    ensures
        r is Unknown <==> v == 0,
        r is Low <==> v == 1,
        r is Full <==> v == 2,
        r is High <==> v == 3,
        r is Variable <==> v == 4,
        r is Super <==> v == 5,
        r is SuperPlus <==> v == 6,
        r is Other <==> v > 6,
        r is Other ==> r->Other_0 == v,
        bits is Some <==> rate is Some,
        bits is Some <==> v == 1 || v == 2 || v == 3 || v == 5 || v == 6,
        bits is Some ==> 8 * rate->0 < bits->0,
        v == 1 ==> bits == Some(1_500_000u64) && rate == Some(150_000u64),
        v == 2 ==> bits == Some(12_000_000u64) && rate == Some(1_000_000u64),
        v == 3 ==> bits == Some(480_000_000u64) && rate == Some(42_000_000u64),
        v == 5 ==> bits == Some(5_000_000_000u64) && rate == Some(400_000_000u64),
        v == 6 ==> bits == Some(10_000_000_000u64) && rate == Some(900_000_000u64),
{
}

/// A string of a device is the text in front of the first zero byte, where the index names one, the device
/// answered, and the bytes are a text.
pub proof fn law_what_a_string_answer_gives(
    dev: &OpenDevice,
    index: u8,
    code: i32,
    head: Seq<u8>,
    rest: Seq<u8>,
    buf: &[u8],
    r: Option<String>,
)
    requires
        forall|i: int| 0 <= i < head.len() ==> #[trigger] head[i] != 0,
        rest.len() > 0 ==> rest[0] == 0,
        buf@ == head + rest,
        call_ensures(OpenDevice::string_descriptor, (dev, index, code, buf), r),
    ensures
        index == 0 || code != 0 || head.len() == 0 || !vstd::utf8::valid_utf8(head) ==> r is None,
        index != 0 && code == 0 && head.len() > 0 && vstd::utf8::valid_utf8(head) ==> r is Some
            && r->0@ == vstd::utf8::decode_utf8(head),
{
    assert forall|i: int| 0 <= i < head.len() implies #[trigger] buf@[i] != 0 by {
        assert(buf@[i] == head[i]);
    }
    if rest.len() > 0 {
        assert(buf@[head.len() as int] == rest[0]);
    }
    lemma_text_end(buf@, 0, head.len() as int);
    assert(buf@.take(head.len() as int) =~= head);
}

proof fn lemma_text_end(buf: Seq<u8>, i: int, end: int)
    requires
        0 <= i <= end <= buf.len(),
        forall|k: int| 0 <= k < end ==> #[trigger] buf[k] != 0,
        end < buf.len() ==> buf[end] == 0,
    ensures
        text_end(buf, i) == end,
    decreases end - i,
{
    if i < end {
        assert(buf[i] != 0);
        lemma_text_end(buf, i + 1, end);
    }
}

/// A device gives its two channels where both endpoints open: the one that writes is the endpoint to the
/// device, and the one that reads is the endpoint to the host. The first endpoint that does not open is the
/// fault, with its code.
pub proof fn law_which_channels_a_device_gives(
    dev: OpenDevice,
    iface: &MtpInterface,
    write: Option<i32>,
    read: Option<i32>,
    r: Result<MtpDevice, UsbError>,
)
    requires
        call_ensures(OpenDevice::into_mtp, (dev, iface, write, read), r),
    ensures
        r is Ok <==> write == Some(0i32) && read == Some(0i32),
        r is Ok ==> {
            &&& r->Ok_0.channels.write.endpoint == iface.bulk_out
            &&& r->Ok_0.channels.read.endpoint == iface.bulk_in
            &&& r->Ok_0.device == dev
        },
        write is Some && write->0 != 0 ==> r == Err::<MtpDevice, UsbError>(
            UsbError::EndpointOpen { endpoint: iface.bulk_out, code: write->0 },
        ),
        write is None ==> r == Err::<MtpDevice, UsbError>(
            UsbError::EndpointOpen { endpoint: iface.bulk_out, code: (-1) as i32 },
        ),
        write == Some(0i32) && read is Some && read->0 != 0 ==> r == Err::<MtpDevice, UsbError>(
            UsbError::EndpointOpen { endpoint: iface.bulk_in, code: read->0 },
        ),
        write == Some(0i32) && read is None ==> r == Err::<MtpDevice, UsbError>(
            UsbError::EndpointOpen { endpoint: iface.bulk_in, code: (-1) as i32 },
        ),
{
}

/// A device opens where the library answers with 0, and the code is the fault otherwise. Detaching a driver and
/// resetting a device answer in the same way.
pub proof fn law_zero_means_success(
    d: DeviceHandle,
    dev: &OpenDevice,
    interface: u8,
    code: i32,
    open: Result<OpenDevice, UsbError>,
    active: bool,
    detach: Result<(), UsbError>,
    reset: Result<(), UsbError>,
)
    requires
        call_ensures(DeviceHandle::open, (d, code), open),
        call_ensures(OpenDevice::kernel_driver_active, (dev, code), active),
        call_ensures(OpenDevice::detach_kernel_driver, (dev, interface, code), detach),
        call_ensures(OpenDevice::reset, (dev, code), reset),
    ensures
        code == 0 ==> open is Ok && open->Ok_0.speed_value == d.speed_value,
        code != 0 ==> open == Err::<OpenDevice, UsbError>(UsbError::Open(code)),
        active <==> code == 0,
        code == 0 ==> detach is Ok && reset is Ok,
        code != 0 ==> detach == Err::<(), UsbError>(UsbError::Detach { interface, code }),
        code != 0 ==> reset == Err::<(), UsbError>(UsbError::Reset(code)),
{
}

/// The devices of a backend are those that were added, in order, up to 1024 of them.
pub proof fn law_every_device_is_kept(next: Option<DeviceHandle>)
    ensures
        forall|b: &mut Backend, r: bool| #[trigger]
            call_ensures(Backend::add_next, (b, next), r) ==> {
                &&& next is Some && (*b)@.len() < 1024 ==> final(b)@ == (*b)@.push(next->0)
                &&& next is Some && (*b)@.len() < 1024 ==> (r <==> (*b)@.len() + 1 < 1024)
                &&& next is None || (*b)@.len() >= 1024 ==> final(b)@ == (*b)@ && !r
            },
        forall|b: Result<Backend, UsbError>| #[trigger]
            call_ensures(Backend::new, (true,), b) ==> b is Ok && b->Ok_0@.len() == 0,
        forall|b: Result<Backend, UsbError>| #[trigger]
            call_ensures(Backend::new, (false,), b) ==> b is Err && b->Err_0 is NoBackend,
{
}

/// The capabilities of a device are those of the bytes that it answered with, and a fault stays a fault.
pub proof fn law_capabilities_come_from_the_answer(
    dev: &OpenDevice,
    raw: Vec<u8>,
    e: UsbError,
    bytes: &[u8],
    c: Result<DeviceCapabilities, DescriptorError>,
    r: Result<DeviceCapabilities, UsbError>,
    f: Result<DeviceCapabilities, UsbError>,
)
    requires
        bytes@ == raw@,
        call_ensures(DeviceCapabilities::parse, (bytes,), c),
        call_ensures(OpenDevice::capabilities, (dev, Ok(raw)), r),
        call_ensures(OpenDevice::capabilities, (dev, Err(e)), f),
    ensures
        c is Ok ==> r == Ok::<DeviceCapabilities, UsbError>(c->Ok_0),
        c is Err ==> r == Err::<DeviceCapabilities, UsbError>(UsbError::Descriptor(c->Err_0)),
        f == Err::<DeviceCapabilities, UsbError>(e),
{
}

/// A message tells the code, the endpoint and every count of its fault in full, each in its place.
pub proof fn law_a_message_tells_what_is_wrong(
    e: &UsbError,
    r: String,
    s: &TransferStatus,
    t: String,
    l: LinkSpeed,
    m: String,
)
    requires
        call_ensures(UsbError::message, (e,), r),
        call_ensures(TransferStatus::message, (s,), t),
        call_ensures(LinkSpeed::message, (&l,), m),
    ensures
        *e matches UsbError::Open(c) ==> r@ == "cannot open the device, code "@
            + text::signed_decimal(c as int) + ". Check that you belong to the operator group"@,
        *e matches UsbError::Control(c) ==> r@ == "the control request failed, code "@
            + text::signed_decimal(c as int),
        *e matches UsbError::EndpointOpen { endpoint, code } ==> r@ == "cannot open endpoint 0x"@
            + text::hex(endpoint as nat, 2) + ", code "@ + text::signed_decimal(code as int),
        *e matches UsbError::Transfer { endpoint, status } ==> status == *s ==> r@
            == "the transfer on endpoint 0x"@ + text::hex(endpoint as nat, 2) + " gave: "@ + t@,
        *e matches UsbError::ShortWrite { want, got } ==> r@ == "the host sent "@ + text::decimal(
            got as nat,
        ) + " bytes, and the caller asked for "@ + text::decimal(want as nat),
        *e matches UsbError::Detach { interface, code } ==> r@
            == "the kernel will not release interface "@ + text::decimal(interface as nat)
            + ", code "@ + text::signed_decimal(code as int),
        *e matches UsbError::Reset(c) ==> r@ == "cannot reset the device, code "@
            + text::signed_decimal(c as int) + ". A reset needs root on FreeBSD"@,
        *e matches UsbError::TimeoutTooLarge { millis } ==> r@ == "the timeout of "@ + text::decimal(
            millis as nat,
        ) + " ms is larger than the library accepts"@,
        *s matches TransferStatus::Other(v) ==> t@ == "unknown status "@ + text::decimal(v as nat),
        l matches LinkSpeed::Other(v) ==> m@ == "a speed this code does not name"@ + " ("@
            + text::decimal(v as nat) + ")"@,
{
}

} // verus!
