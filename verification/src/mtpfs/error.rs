//! Faults that a filesystem reports.

use vstd::prelude::*;
use vstd::string::*;

use crate::ptp::error::ParseError;
use crate::session::error::SessionError;
use crate::text;
use crate::usb::descriptor::DescriptorError;
use crate::usb::device::UsbError;

verus! {

/// A fault the filesystem reports.
#[derive(Debug, Clone, PartialEq, Eq)]
pub enum Error {
    /// No device gives an MTP interface.
    NoDevice,
    /// A USB operation failed.
    Usb(UsbError),
    /// A dataset does not parse.
    Parse(ParseError),
    /// An operation failed for another reason.
    Session(SessionError),
    /// The device answered with a fault code.
    Device { step: &'static str, code: u16 },
    /// The device gives no storage.
    NoStorage,
    /// The device cannot read part of a file.
    ///
    /// A filesystem needs a partial read, because a read asks for an offset.
    NoPartialRead,
}

impl Error {
    /// The text of the fault.
    pub open spec fn text(self) -> Seq<char> {
        match self {
            Error::NoDevice =>
                "no device gives an MTP interface. Connect the telephone, unlock the telephone, and put the telephone into file transfer mode"@,
            Error::Usb(e) => e.text(),
            Error::Parse(e) => e.text(),
            Error::Session(e) => e.text(),
            Error::Device { step, code } => step@ + ": the device answered with the code 0x"@
                + text::hex(code as nat, 4),
            Error::NoStorage =>
                "the device reports no storage. Unlock the telephone, and put the telephone into file transfer mode"@,
            Error::NoPartialRead =>
                "the device cannot read part of a file, and a filesystem needs that operation"@,
        }
    }

    /// Whether the fault can pass by itself. A device is busy for a moment after a session closed, and a
    /// transfer then fails. What a device answers, or cannot do, does not change.
    pub open spec fn passes(self) -> bool {
        self is Usb || self is Session
    }

    /// Tells you if the fault can pass by itself.
    pub fn can_pass(&self) -> (r: bool)
        ensures
            r == self.passes(),
    {
        match self {
            Error::Usb(_) => true,
            Error::Session(_) => true,
            _ => false,
        }
    }

    /// Gives the text of the fault.
    pub fn message(&self) -> (r: String)
        ensures
            r@ == self.text(),
    {
        let mut s: String = String::new();
        match self {
            Error::NoDevice => {
                s.append(
                    "no device gives an MTP interface. Connect the telephone, unlock the telephone, and put the telephone into file transfer mode",
                );
            },
            Error::Usb(e) => {
                s.append(e.message().as_str());
            },
            Error::Parse(e) => {
                s.append(e.message().as_str());
            },
            Error::Session(e) => {
                s.append(e.message().as_str());
            },
            Error::Device { step, code } => {
                s.append(step);
                s.append(": the device answered with the code 0x");
                text::push_hex(&mut s, *code as u64, 4);
            },
            Error::NoStorage => {
                s.append(
                    "the device reports no storage. Unlock the telephone, and put the telephone into file transfer mode",
                );
            },
            Error::NoPartialRead => {
                s.append(
                    "the device cannot read part of a file, and a filesystem needs that operation",
                );
            },
        }
        proof {
            assert(s@ =~= self.text());
        }
        s
    }
}

impl vstd::std_specs::convert::FromSpecImpl<UsbError> for Error {
    open spec fn obeys_from_spec() -> bool {
        true
    }

    open spec fn from_spec(e: UsbError) -> Self {
        Error::Usb(e)
    }
}

impl From<UsbError> for Error {
    fn from(e: UsbError) -> (r: Self) {
        Error::Usb(e)
    }
}

impl vstd::std_specs::convert::FromSpecImpl<ParseError> for Error {
    open spec fn obeys_from_spec() -> bool {
        true
    }

    open spec fn from_spec(e: ParseError) -> Self {
        Error::Parse(e)
    }
}

impl From<ParseError> for Error {
    fn from(e: ParseError) -> (r: Self) {
        Error::Parse(e)
    }
}

impl vstd::std_specs::convert::FromSpecImpl<DescriptorError> for Error {
    open spec fn obeys_from_spec() -> bool {
        true
    }

    open spec fn from_spec(e: DescriptorError) -> Self {
        Error::NoDevice
    }
}

impl From<DescriptorError> for Error {
    fn from(e: DescriptorError) -> (r: Self) {
        Error::NoDevice
    }
}

/// The fault of a filesystem that the fault of an operation is.
pub open spec fn error_of(e: SessionError) -> Error {
    match e {
        SessionError::Usb { source, .. } => Error::Usb(source),
        SessionError::Parse { source, .. } => Error::Parse(source),
        _ => Error::Session(e),
    }
}

impl vstd::std_specs::convert::FromSpecImpl<SessionError> for Error {
    open spec fn obeys_from_spec() -> bool {
        true
    }

    open spec fn from_spec(e: SessionError) -> Self {
        error_of(e)
    }
}

impl From<SessionError> for Error {
    fn from(e: SessionError) -> (r: Self) {
        match e {
            SessionError::Usb { source, .. } => Error::Usb(source),
            SessionError::Parse { source, .. } => Error::Parse(source),
            other => Error::Session(other),
        }
    }
}

/// A fault of the device tells its step and the whole of its code, and a fault that comes from elsewhere reads as
/// it does there.
pub proof fn law_a_message_tells_what_is_wrong(e: &Error, r: String)
    requires
        call_ensures(Error::message, (e,), r),
    ensures
        *e matches Error::Device { step, code } ==> r@ == step@
            + ": the device answered with the code 0x"@ + text::hex(code as nat, 4),
        *e matches Error::Usb(f) ==> r@ == f.text(),
        *e matches Error::Parse(f) ==> r@ == f.text(),
        *e matches Error::Session(f) ==> r@ == f.text(),
{
}

/// A fault of the transport and a fault of the session can pass by themselves, and no other fault can.
pub proof fn law_which_faults_can_pass(e: &Error, r: bool)
    requires
        call_ensures(Error::can_pass, (e,), r),
    ensures
        r <==> e is Usb || e is Session,
{
}

} // verus!
