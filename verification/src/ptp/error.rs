//! Faults in PTP data.

use vstd::prelude::*;
use vstd::string::*;

use crate::text;

verus! {

/// The size of a PTP container header, in bytes.
pub const HEADER_LEN: usize = 12;

/// The largest payload one container carries, in bytes.
///
/// The length field is a `u32` and counts the header, so this is `u32::MAX` less the header.
pub const MAX_PAYLOAD_LEN: usize = 0xffff_fff3;

/// A fault in a byte buffer that holds PTP data.
#[derive(Debug, Clone, PartialEq, Eq)]
pub enum ParseError {
    /// The buffer is smaller than a container header.
    ShortHeader { got: usize },
    /// The length field and the buffer size disagree.
    LengthMismatch { declared: u32, available: usize },
    /// The container type field holds a value the standard does not define.
    UnknownContainerType(u16),
    /// A field needs more bytes than the buffer holds.
    Truncated { field: &'static str, need: usize, got: usize },
    /// A string field does not hold valid UTF-16.
    BadString { field: &'static str },
    /// A field holds a value of a kind whose width is not known.
    Unsupported { field: &'static str, value: u32 },
}

impl ParseError {
    /// The text of the fault.
    pub open spec fn text(self) -> Seq<char> {
        match self {
            ParseError::ShortHeader { got } => "the buffer holds "@ + text::decimal(got as nat)
                + " bytes, and a container header needs "@ + text::decimal(HEADER_LEN as nat),
            ParseError::LengthMismatch { declared, available } => "the container declares "@
                + text::decimal(declared as nat) + " bytes, and the buffer holds "@
                + text::decimal(available as nat),
            ParseError::UnknownContainerType(v) => "the container type "@ + text::decimal(v as nat)
                + " is not a defined type"@,
            ParseError::Truncated { field, need, got } => "the field "@ + field@ + " needs "@
                + text::decimal(need as nat) + " bytes, and "@ + text::decimal(got as nat)
                + " bytes remain"@,
            ParseError::BadString { field } => "the field "@ + field@
                + " does not hold valid UTF-16"@,
            ParseError::Unsupported { field, value } => "the field "@ + field@ + " holds "@
                + text::decimal(value as nat) + ", which this project cannot read"@,
        }
    }

    /// Gives the text of the fault.
    pub fn message(&self) -> (r: String)
        ensures
            r@ == self.text(),
    {
        let mut s: String = String::new();
        match self {
            ParseError::ShortHeader { got } => {
                s.append("the buffer holds ");
                text::push_decimal(&mut s, *got as u128);
                s.append(" bytes, and a container header needs ");
                text::push_decimal(&mut s, HEADER_LEN as u128);
            },
            ParseError::LengthMismatch { declared, available } => {
                s.append("the container declares ");
                text::push_decimal(&mut s, *declared as u128);
                s.append(" bytes, and the buffer holds ");
                text::push_decimal(&mut s, *available as u128);
            },
            ParseError::UnknownContainerType(v) => {
                s.append("the container type ");
                text::push_decimal(&mut s, *v as u128);
                s.append(" is not a defined type");
            },
            ParseError::Truncated { field, need, got } => {
                s.append("the field ");
                s.append(field);
                s.append(" needs ");
                text::push_decimal(&mut s, *need as u128);
                s.append(" bytes, and ");
                text::push_decimal(&mut s, *got as u128);
                s.append(" bytes remain");
            },
            ParseError::BadString { field } => {
                s.append("the field ");
                s.append(field);
                s.append(" does not hold valid UTF-16");
            },
            ParseError::Unsupported { field, value } => {
                s.append("the field ");
                s.append(field);
                s.append(" holds ");
                text::push_decimal(&mut s, *value as u128);
                s.append(", which this project cannot read");
            },
        }
        s
    }
}

/// A payload that does not fit the length field of a container.
#[derive(Debug, Clone, Copy, PartialEq, Eq, Structural)]
pub struct PayloadTooLarge {
    /// The count of payload bytes the caller gave.
    pub len: u64,
}

impl PayloadTooLarge {
    /// The text of the fault.
    pub open spec fn text(self) -> Seq<char> {
        "the payload holds "@ + text::decimal(self.len as nat)
            + " bytes, and one container holds "@ + text::decimal(MAX_PAYLOAD_LEN as nat)
            + " at most"@
    }

    /// Gives the text of the fault.
    pub fn message(&self) -> (r: String)
        ensures
            r@ == self.text(),
    {
        let mut s: String = String::new();
        s.append("the payload holds ");
        text::push_decimal(&mut s, self.len as u128);
        s.append(" bytes, and one container holds ");
        text::push_decimal(&mut s, MAX_PAYLOAD_LEN as u128);
        s.append(" at most");
        s
    }
}

/// A message tells every number of its fault in full, and the name of the field, each in its place.
pub proof fn law_a_message_tells_what_is_wrong(e: &ParseError, r: String, p: &PayloadTooLarge, t: String)
    requires
        call_ensures(ParseError::message, (e,), r),
        call_ensures(PayloadTooLarge::message, (p,), t),
    ensures
        *e matches ParseError::ShortHeader { got } ==> r@ == "the buffer holds "@ + text::decimal(
            got as nat,
        ) + " bytes, and a container header needs "@ + text::decimal(12),
        *e matches ParseError::LengthMismatch { declared, available } ==> r@
            == "the container declares "@ + text::decimal(declared as nat)
            + " bytes, and the buffer holds "@ + text::decimal(available as nat),
        *e matches ParseError::UnknownContainerType(v) ==> r@ == "the container type "@
            + text::decimal(v as nat) + " is not a defined type"@,
        *e matches ParseError::Truncated { field, need, got } ==> r@ == "the field "@ + field@
            + " needs "@ + text::decimal(need as nat) + " bytes, and "@ + text::decimal(got as nat)
            + " bytes remain"@,
        *e matches ParseError::BadString { field } ==> r@ == "the field "@ + field@
            + " does not hold valid UTF-16"@,
        *e matches ParseError::Unsupported { field, value } ==> r@ == "the field "@ + field@
            + " holds "@ + text::decimal(value as nat) + ", which this project cannot read"@,
        t@ == "the payload holds "@ + text::decimal(p.len as nat) + " bytes, and one container holds "@
            + text::decimal(4294967283) + " at most"@,
{
}

} // verus!
