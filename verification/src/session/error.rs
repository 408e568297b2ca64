//! Faults in an operation.

use vstd::prelude::*;
use vstd::string::*;

use crate::ptp::container::ContainerType;
use crate::ptp::error::{ParseError, PayloadTooLarge};
use crate::text;
use crate::usb::device::UsbError;

verus! {

/// A fault in an operation. The cause of a fault of the caller's reader or writer is its text.
#[derive(Debug, Clone, PartialEq, Eq)]
#[allow(inconsistent_fields)]
pub enum SessionError {
    /// A transfer failed or passed the deadline.
    Usb { step: &'static str, source: UsbError },
    /// The device sent bytes that do not parse.
    Parse { step: &'static str, source: ParseError },
    /// The device sent a container of a kind the step does not expect.
    Unexpected { step: &'static str, expected: ContainerType, got: ContainerType },
    /// The device declared a data phase larger than the host accepts.
    TooLarge { step: &'static str, declared: u64, limit: u64 },
    /// The device stopped before the end of the data phase.
    Incomplete { step: &'static str, want: u64, got: u64 },
    /// The host cannot write the payload where the caller asked.
    Write { step: &'static str, source: String },
    /// The host cannot read the payload the caller promised the device.
    ///
    /// MTP gives the size before the bytes, and the device reads exactly that count. A reader that
    /// gives fewer bytes leaves the device waiting.
    ShortRead { step: &'static str, want: u64, got: u64, source: Option<String> },
    /// The payload does not fit the length field of a container.
    Build { step: &'static str, source: PayloadTooLarge },
}

/// The name of a container type, as a message spells it.
pub open spec fn kind_name(kind: ContainerType) -> &'static str {
    match kind {
        ContainerType::Command => "Command",
        ContainerType::Data => "Data",
        ContainerType::Response => "Response",
        ContainerType::Event => "Event",
    }
}

/// Gives the name of a container type.
fn name_of_kind(kind: ContainerType) -> (r: &'static str)
    ensures
        r == kind_name(kind),
{
    match kind {
        ContainerType::Command => "Command",
        ContainerType::Data => "Data",
        ContainerType::Response => "Response",
        ContainerType::Event => "Event",
    }
}

impl SessionError {
    /// The step that failed.
    pub open spec fn failed_step(self) -> &'static str {
        match self {
            SessionError::Usb { step, .. } => step,
            SessionError::Parse { step, .. } => step,
            SessionError::Unexpected { step, .. } => step,
            SessionError::TooLarge { step, .. } => step,
            SessionError::Incomplete { step, .. } => step,
            SessionError::Write { step, .. } => step,
            SessionError::ShortRead { step, .. } => step,
            SessionError::Build { step, .. } => step,
        }
    }

    /// Gives the step that failed.
    pub fn step(&self) -> (r: &'static str)
        ensures
            r == self.failed_step(),
    {
        match self {
            SessionError::Usb { step, .. } => step,
            SessionError::Parse { step, .. } => step,
            SessionError::Unexpected { step, .. } => step,
            SessionError::TooLarge { step, .. } => step,
            SessionError::Incomplete { step, .. } => step,
            SessionError::Write { step, .. } => step,
            SessionError::ShortRead { step, .. } => step,
            SessionError::Build { step, .. } => step,
        }
    }

    /// What the message says behind the step.
    pub open spec fn detail(self) -> Seq<char> {
        match self {
            SessionError::Usb { source, .. } => source.text(),
            SessionError::Parse { source, .. } => source.text(),
            SessionError::Unexpected { expected, got, .. } => "the device sent "@ + kind_name(got)@
                + ", and "@ + kind_name(expected)@ + " was due"@,
            SessionError::TooLarge { declared, limit, .. } => "the device declared "@
                + text::decimal(declared as nat) + " bytes, and the limit is "@ + text::decimal(
                limit as nat,
            ),
            SessionError::Incomplete { want, got, .. } => "the device sent "@ + text::decimal(
                got as nat,
            ) + " bytes of the "@ + text::decimal(want as nat) + " it declared"@,
            SessionError::Write { source, .. } => "cannot write the payload: "@ + source@,
            SessionError::ShortRead { want, got, source, .. } => "the host promised "@
                + text::decimal(want as nat) + " bytes and read "@ + text::decimal(got as nat) + (
            match source {
                Some(e) => ": "@ + e@,
                None => Seq::empty(),
            }),
            SessionError::Build { source, .. } => source.text(),
        }
    }

    /// The text of the fault.
    pub open spec fn text(self) -> Seq<char> {
        self.failed_step()@ + ": "@ + self.detail()
    }

    /// Gives the text of the fault.
    pub fn message(&self) -> (r: String)
        ensures
            r@ == self.text(),
    {
        let mut d: String = String::new();
        match self {
            SessionError::Usb { source, .. } => {
                d.append(source.message().as_str());
            },
            SessionError::Parse { source, .. } => {
                d.append(source.message().as_str());
            },
            SessionError::Unexpected { expected, got, .. } => {
                d.append("the device sent ");
                d.append(name_of_kind(*got));
                d.append(", and ");
                d.append(name_of_kind(*expected));
                d.append(" was due");
            },
            SessionError::TooLarge { declared, limit, .. } => {
                d.append("the device declared ");
                text::push_decimal(&mut d, *declared as u128);
                d.append(" bytes, and the limit is ");
                text::push_decimal(&mut d, *limit as u128);
            },
            SessionError::Incomplete { want, got, .. } => {
                d.append("the device sent ");
                text::push_decimal(&mut d, *got as u128);
                d.append(" bytes of the ");
                text::push_decimal(&mut d, *want as u128);
                d.append(" it declared");
            },
            SessionError::Write { source, .. } => {
                d.append("cannot write the payload: ");
                d.append(source.as_str());
            },
            SessionError::ShortRead { want, got, source, .. } => {
                d.append("the host promised ");
                text::push_decimal(&mut d, *want as u128);
                d.append(" bytes and read ");
                text::push_decimal(&mut d, *got as u128);
                match source {
                    Some(e) => {
                        d.append(": ");
                        d.append(e.as_str());
                    },
                    None => {},
                }
            },
            SessionError::Build { source, .. } => {
                d.append(source.message().as_str());
            },
        }
        proof {
            assert(d@ =~= self.detail());
        }
        let mut s: String = String::new();
        s.append(self.step());
        s.append(": ");
        s.append(d.as_str());
        proof {
            assert(s@ =~= self.text());
        }
        s
    }
}

/// Every fault of an operation names the step that it was made with.
pub proof fn law_a_fault_names_its_step(e: &SessionError, r: &'static str)
    requires
        call_ensures(SessionError::step, (e,), r),
    ensures
        e is Usb ==> r == e->Usb_step,
        e is Parse ==> r == e->Parse_step,
        e is Unexpected ==> r == e->Unexpected_step,
        e is TooLarge ==> r == e->TooLarge_step,
        e is Incomplete ==> r == e->Incomplete_step,
        e is Write ==> r == e->Write_step,
        e is ShortRead ==> r == e->ShortRead_step,
        e is Build ==> r == e->Build_step,
{
}

/// A message starts with the step, and tells every number of its fault in full, each in its place.
pub proof fn law_a_message_tells_what_is_wrong(e: &SessionError, r: String)
    requires
        call_ensures(SessionError::message, (e,), r),
    ensures
        *e matches SessionError::Usb { step, source } ==> r@ == step@ + ": "@ + source.text(),
        *e matches SessionError::Parse { step, source } ==> r@ == step@ + ": "@ + source.text(),
        *e matches SessionError::TooLarge { step, declared, limit } ==> r@ == step@ + ": "@ + (
        "the device declared "@ + text::decimal(declared as nat) + " bytes, and the limit is "@
            + text::decimal(limit as nat)),
        *e matches SessionError::Incomplete { step, want, got } ==> r@ == step@ + ": "@ + (
        "the device sent "@ + text::decimal(got as nat) + " bytes of the "@ + text::decimal(
            want as nat,
        ) + " it declared"@),
        *e matches SessionError::Write { step, source } ==> r@ == step@ + ": "@ + (
        "cannot write the payload: "@ + source@),
        *e matches SessionError::ShortRead { step, want, got, source } ==> source is None ==> r@
            =~= step@ + ": "@ + ("the host promised "@ + text::decimal(want as nat)
            + " bytes and read "@ + text::decimal(got as nat)),
        *e matches SessionError::Build { step, source } ==> r@ == step@ + ": "@ + source.text(),
{
}

} // verus!
