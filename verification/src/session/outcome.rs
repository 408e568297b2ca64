//! What an operation did.

use vstd::prelude::*;

use crate::ptp::bytes;
use crate::ptp::error::ParseError;
use crate::ptp::reader;
use crate::ptp::resp;
use crate::time::Duration;

verus! {

/// What one operation did.
#[derive(Debug, Clone)]
pub struct Outcome {
    /// The response code the device gave.
    pub response_code: u16,
    /// The payload of the data phase. The field is empty if there was none.
    pub data: Vec<u8>,
    /// The parameters of the response container.
    ///
    /// These are not the payload of the data phase. `SendObjectInfo` answers with the storage, the
    /// parent and the handle of the new object here, and a caller that writes a file needs the
    /// handle.
    pub response_params: Vec<u32>,
    /// The time the operation took.
    pub elapsed: Duration,
    /// The count of reads the host did for the data phase.
    ///
    /// A count above 1 shows that the host joined many transfers into one payload.
    pub reads: usize,
}

impl Outcome {
    /// Tells you if the device reported success.
    pub fn is_ok(&self) -> (r: bool)
        ensures
            r == (self.response_code == resp::OK),
    {
        self.response_code == resp::OK
    }

    /// Reads the payload as a PTP array of `u32`.
    ///
    /// `GetStorageIDs` and `GetObjectHandles` both answer with this shape. An empty payload gives an
    /// empty list, because a device that holds nothing sends no array.
    pub fn as_u32_array(&self) -> (r: Result<Vec<u32>, ParseError>)
        ensures
            match r {
                Ok(v) => if self.data@.len() == 0 {
                    v@.len() == 0
                } else {
                    reader::array_fault(self.data@, 0, 4, "array") is None && v@
                        == reader::u32_array_at(self.data@, 0)
                },
                Err(e) => self.data@.len() > 0 && reader::array_fault(self.data@, 0, 4, "array")
                    == Some(e),
            },
    {
        if self.data.is_empty() {
            return Ok(Vec::new());
        }
        reader::parse_u32_array(self.data.as_slice())
    }
}

/// What one streamed operation did.
#[derive(Debug, Clone)]
pub struct StreamOutcome {
    /// The response code the device gave.
    pub response_code: u16,
    /// The parameters of the response container. See [`Outcome`].
    pub response_params: Vec<u32>,
    /// The count of payload bytes the host moved.
    pub bytes: u64,
    /// The time the operation took.
    pub elapsed: Duration,
    /// The count of reads the host did for the data phase.
    pub reads: usize,
}

impl StreamOutcome {
    /// Tells you if the device reported success.
    pub fn is_ok(&self) -> (r: bool)
        ensures
            r == (self.response_code == resp::OK),
    {
        self.response_code == resp::OK
    }
}

/// What opening a session had to do.
///
/// The struct carries facts, and the caller chooses the words.
#[derive(Debug, Clone)]
pub struct SessionOpen {
    /// The answer to the `OpenSession` that the host kept.
    pub outcome: Outcome,
    /// The host met a session from an earlier program, and closed it.
    pub repaired: bool,
    /// What `CloseSession` answered during the repair.
    pub close_response: Option<u16>,
    /// The count of bytes the host dropped while it cleared the endpoints.
    pub dropped: u64,
    /// The device still reports an open session after the repair.
    ///
    /// The MTP service on the device holds the session and does not release it. A cable disconnect
    /// does not repair this state.
    pub wedged: bool,
}

/// An answer that holds an array of `u32` reads as all of its values, however many there are, and an answer
/// without data as none. Only 0x2001 is a success.
pub proof fn law_an_answer_reads_as_its_array(
    o: &Outcome,
    v: Seq<u32>,
    tail: Seq<u8>,
    r: Result<Vec<u32>, ParseError>,
    ok: bool,
)
    requires
        v.len() <= u32::MAX,
        o.data@.len() == 0 || o.data@ == bytes::u32_bytes(v.len() as u32) + bytes::u32_list_bytes(v)
            + tail,
        call_ensures(Outcome::as_u32_array, (o,), r),
        call_ensures(Outcome::is_ok, (o,), ok),
    ensures
        r is Ok,
        o.data@.len() == 0 ==> r->Ok_0@.len() == 0,
        o.data@.len() > 0 ==> r->Ok_0@ == v,
        ok <==> o.response_code == 0x2001,
{
    if o.data@.len() > 0 {
        reader::law_u32_array_round_trip(Seq::empty(), v, tail, "array");
        assert(Seq::<u8>::empty() + bytes::u32_bytes(v.len() as u32) + bytes::u32_list_bytes(v)
            + tail =~= o.data@);
    }
}

} // verus!
