//! Containers, the unit of transfer on the wire.
//!
//! A container starts with a header of 12 bytes, every field little-endian:
//!
//! | Offset | Size | Field          |
//! | ------ | ---- | -------------- |
//! | 0      | 4    | length         |
//! | 4      | 2    | container type |
//! | 6      | 2    | code           |
//! | 8      | 4    | transaction id |
//!
//! The length counts the header.

use vstd::prelude::*;

use crate::ptp::bytes;
use crate::ptp::error::{ParseError, PayloadTooLarge, HEADER_LEN, MAX_PAYLOAD_LEN};
use crate::ptp::reader;

verus! {

/// The largest count of parameters a command container carries.
pub const MAX_PARAMS: usize = 5;

/// The kind of a PTP container.
#[derive(Debug, Clone, Copy, PartialEq, Eq, Structural)]
pub enum ContainerType {
    /// The host asks the device to do an operation.
    Command,
    /// The container carries the payload of an operation.
    Data,
    /// The device reports the result of an operation.
    Response,
    /// The device reports a change that no operation asked for.
    Event,
}

/// The container type that a wire value stands for.
pub open spec fn kind_of(v: u16) -> Option<ContainerType> {
    if v == 1 {
        Some(ContainerType::Command)
    } else if v == 2 {
        Some(ContainerType::Data)
    } else if v == 3 {
        Some(ContainerType::Response)
    } else if v == 4 {
        Some(ContainerType::Event)
    } else {
        None
    }
}

impl ContainerType {
    /// The wire value of the container type.
    pub open spec fn wire(self) -> u16 {
        match self {
            ContainerType::Command => 1,
            ContainerType::Data => 2,
            ContainerType::Response => 3,
            ContainerType::Event => 4,
        }
    }

    /// Converts the wire value to a container type.
    pub fn from_wire(v: u16) -> (r: Result<Self, ParseError>)
        ensures
            match kind_of(v) {
                Some(k) => r == Ok::<Self, ParseError>(k),
                None => r == Err::<Self, ParseError>(ParseError::UnknownContainerType(v)),
            },
    {
        match v {
            1 => Ok(ContainerType::Command),
            2 => Ok(ContainerType::Data),
            3 => Ok(ContainerType::Response),
            4 => Ok(ContainerType::Event),
            other => Err(ParseError::UnknownContainerType(other)),
        }
    }

    /// Converts the container type to the wire value.
    pub fn to_wire(self) -> (r: u16)
        ensures
            r == self.wire(),
    {
        match self {
            ContainerType::Command => 1,
            ContainerType::Data => 2,
            ContainerType::Response => 3,
            ContainerType::Event => 4,
        }
    }
}

/// The header of a container, with no payload.
///
/// A large data phase does not fit in one USB transfer. The first transfer holds the header and
/// the start of the payload, and the length field says how many bytes follow.
#[derive(Debug, Clone, Copy, PartialEq, Eq, Structural)]
pub struct Header {
    /// The size of the whole container, in bytes, and the header counts.
    pub length: u32,
    /// The kind of the container.
    pub kind: ContainerType,
    /// An operation code, a response code, or an event code.
    pub code: u16,
    /// The transaction id.
    pub transaction_id: u32,
}

/// What the first 12 bytes of a buffer say, as a header.
pub open spec fn header_at(buf: Seq<u8>) -> Result<Header, ParseError> {
    if buf.len() < HEADER_LEN {
        Err(ParseError::ShortHeader { got: buf.len() as usize })
    } else {
        match kind_of(bytes::u16_at(buf, 4)) {
            Some(kind) => Ok(
                Header {
                    length: bytes::u32_at(buf, 0),
                    kind,
                    code: bytes::u16_at(buf, 6),
                    transaction_id: bytes::u32_at(buf, 8),
                },
            ),
            None => Err(ParseError::UnknownContainerType(bytes::u16_at(buf, 4))),
        }
    }
}

/// The header of the container that starts a buffer, where the length field covers the header and
/// the buffer holds the bytes that it declares.
pub open spec fn whole_container(buf: Seq<u8>) -> Result<Header, ParseError> {
    match header_at(buf) {
        Ok(h) => if HEADER_LEN <= h.length <= buf.len() {
            Ok(h)
        } else {
            Err(
                ParseError::LengthMismatch {
                    declared: h.length,
                    available: buf.len() as usize,
                },
            )
        },
        Err(e) => Err(e),
    }
}

/// The count of payload bytes that a length field declares.
pub open spec fn payload_len_of(length: u32) -> int {
    if length < HEADER_LEN {
        0
    } else {
        length - HEADER_LEN
    }
}

impl Header {
    /// Reads a header from the first 12 bytes of a buffer.
    ///
    /// The function does not compare the length field with the buffer size. The buffer holds one
    /// transfer, and the container is often larger.
    pub fn parse(buf: &[u8]) -> (r: Result<Self, ParseError>)
        ensures
            r == header_at(buf@),
    {
        if buf.len() < HEADER_LEN {
            return Err(ParseError::ShortHeader { got: buf.len() });
        }
        let kind = ContainerType::from_wire(bytes::read_u16_at(buf, 4))?;
        Ok(
            Header {
                length: bytes::read_u32_at(buf, 0),
                kind,
                code: bytes::read_u16_at(buf, 6),
                transaction_id: bytes::read_u32_at(buf, 8),
            },
        )
    }

    /// The count of payload bytes the container holds.
    ///
    /// The function gives 0 if the length field is below the header size.
    pub fn payload_len(&self) -> (r: usize)
        ensures
            r == payload_len_of(self.length),
    {
        if (self.length as usize) < HEADER_LEN {
            0
        } else {
            self.length as usize - HEADER_LEN
        }
    }
}

/// A PTP container.
#[derive(Debug, Clone, PartialEq, Eq)]
pub struct Container<'a> {
    /// The value of the length field, which counts the header.
    pub length: u32,
    /// The kind of the container.
    pub kind: ContainerType,
    /// An operation code, a response code, or an event code. The meaning depends on `kind`.
    pub code: u16,
    /// The transaction id, which pairs a response with its command.
    pub transaction_id: u32,
    /// The bytes after the header.
    pub payload: &'a [u8],
}

/// The whole parameters in a payload. A byte after the last whole parameter does not count.
pub open spec fn params_of(payload: Seq<u8>) -> Seq<u32> {
    Seq::new(payload.len() / 4, |i: int| bytes::u32_at(payload, 4 * i))
}

impl<'a> Container<'a> {
    /// The header fields of the container.
    pub open spec fn header(self) -> Header {
        Header {
            length: self.length,
            kind: self.kind,
            code: self.code,
            transaction_id: self.transaction_id,
        }
    }

    /// Reads a container from a byte buffer.
    ///
    /// The function checks the length field against the buffer size, so a damaged length never
    /// reads past the buffer.
    pub fn parse(buf: &'a [u8]) -> (r: Result<Self, ParseError>)
        ensures
            match r {
                Ok(c) => whole_container(buf@) == Ok::<Header, ParseError>(c.header())
                    && c.payload@ == buf@.subrange(HEADER_LEN as int, c.length as int),
                Err(e) => whole_container(buf@) == Err::<Header, ParseError>(e),
            },
    {
        let h = Header::parse(buf)?;
        let declared: usize = h.length as usize;
        if declared < HEADER_LEN || declared > buf.len() {
            return Err(
                ParseError::LengthMismatch { declared: h.length, available: buf.len() },
            );
        }
        Ok(
            Container {
                length: h.length,
                kind: h.kind,
                code: h.code,
                transaction_id: h.transaction_id,
                payload: vstd::slice::slice_subrange(buf, HEADER_LEN, declared),
            },
        )
    }

    /// Reads the payload as a PTP array of `u32`.
    ///
    /// A PTP array starts with a `u32` element count.
    pub fn payload_as_u32_array(&self) -> (r: Result<Vec<u32>, ParseError>)
        ensures
            match r {
                Ok(v) => reader::array_fault(self.payload@, 0, 4, "array") is None && v@
                    == reader::u32_array_at(self.payload@, 0),
                Err(e) => reader::array_fault(self.payload@, 0, 4, "array") == Some(e),
            },
    {
        reader::parse_u32_array(self.payload)
    }

    /// Reads the payload as the parameters of a command or a response.
    ///
    /// The function ignores a byte after the last whole parameter.
    pub fn parameters(&self) -> (r: Vec<u32>)
        ensures
            r@ == params_of(self.payload@),
    {
        let mut out: Vec<u32> = Vec::new();
        let count: usize = self.payload.len() / 4;
        let mut i: usize = 0;
        while i < count
            invariant
                i <= count,
                count == self.payload@.len() / 4,
                self.payload@.len() <= usize::MAX,
                out@.len() == i,
                forall|k: int| 0 <= k < i ==> out@[k] == #[trigger] params_of(self.payload@)[k],
            decreases count - i,
        {
            out.push(bytes::read_u32_at(self.payload, 4 * i));
            i = i + 1;
        }
        proof {
            assert(out@ =~= params_of(self.payload@));
        }
        out
    }
}

/// Gives the value of the length field for a payload of this size.
///
/// The length field counts the header. A payload that the field cannot count is an error: a sum
/// that wraps would declare a length below the header size, and the device would read the next
/// command as payload.
pub fn container_length(payload_len: u64) -> (r: Result<u32, PayloadTooLarge>)
    ensures
        match r {
            Ok(n) => payload_len <= MAX_PAYLOAD_LEN && n == HEADER_LEN + payload_len,
            Err(e) => payload_len > MAX_PAYLOAD_LEN && e.len == payload_len,
        },
{
    if payload_len > MAX_PAYLOAD_LEN as u64 {
        return Err(PayloadTooLarge { len: payload_len });
    }
    Ok(HEADER_LEN as u32 + payload_len as u32)
}

/// The 12 bytes of a header.
pub open spec fn header_bytes(h: Header) -> Seq<u8> {
    bytes::u32_bytes(h.length) + bytes::u16_bytes(h.kind.wire()) + bytes::u16_bytes(h.code)
        + bytes::u32_bytes(h.transaction_id)
}

/// Writes the 12 byte header of a container.
pub fn push_header(
    out: &mut Vec<u8>,
    length: u32,
    kind: ContainerType,
    code: u16,
    transaction_id: u32,
)
    ensures
        final(out)@ == old(out)@ + header_bytes(Header { length, kind, code, transaction_id }),
{
    bytes::push_u32(out, length);
    bytes::push_u16(out, kind.to_wire());
    bytes::push_u16(out, code);
    bytes::push_u32(out, transaction_id);
    proof {
        assert(out@ =~= old(out)@ + header_bytes(Header { length, kind, code, transaction_id }));
    }
}

/// Builds a container for the wire: the header, then the payload.
///
/// The function gives an error for a payload that the length field cannot count.
pub fn build(kind: ContainerType, code: u16, transaction_id: u32, payload: &[u8]) -> (r: Result<
    Vec<u8>,
    PayloadTooLarge,
>)
    ensures
        match r {
            Ok(v) => payload@.len() <= MAX_PAYLOAD_LEN && v@ == header_bytes(
                (Header {
                    length: (HEADER_LEN + payload@.len()) as u32,
                    kind,
                    code,
                    transaction_id,
                }),
            ) + payload@,
            Err(e) => payload@.len() > MAX_PAYLOAD_LEN && e.len == payload@.len(),
        },
{
    let length: u32 = container_length(payload.len() as u64)?;
    let mut out: Vec<u8> = Vec::new();
    push_header(&mut out, length, kind, code, transaction_id);
    out.extend_from_slice(payload);
    proof {
        assert(out@ =~= header_bytes(Header { length, kind, code, transaction_id }) + payload@);
    }
    Ok(out)
}

/// Builds the header of a data container whose payload follows.
///
/// The length field counts the header, so the caller gives the size of the payload alone. The
/// function gives an error for a payload that the length field cannot count.
pub fn build_data_header(code: u16, transaction_id: u32, payload_len: u64) -> (r: Result<
    Vec<u8>,
    PayloadTooLarge,
>)
    ensures
        match r {
            Ok(v) => payload_len <= MAX_PAYLOAD_LEN && v@ == header_bytes(
                (Header {
                    length: (HEADER_LEN + payload_len) as u32,
                    kind: ContainerType::Data,
                    code,
                    transaction_id,
                }),
            ),
            Err(e) => payload_len > MAX_PAYLOAD_LEN && e.len == payload_len,
        },
{
    let length: u32 = container_length(payload_len)?;
    let mut out: Vec<u8> = Vec::new();
    push_header(&mut out, length, ContainerType::Data, code, transaction_id);
    Ok(out)
}

/// The parameters that a command container carries: the first five.
pub open spec fn sent_params(params: Seq<u32>) -> Seq<u32> {
    if params.len() <= MAX_PARAMS {
        params
    } else {
        params.take(MAX_PARAMS as int)
    }
}

/// The bytes of a command container.
pub open spec fn command_bytes(code: u16, transaction_id: u32, params: Seq<u32>) -> Seq<u8> {
    header_bytes(
        Header {
            length: (HEADER_LEN + 4 * sent_params(params).len()) as u32,
            kind: ContainerType::Command,
            code,
            transaction_id,
        },
    ) + bytes::u32_list_bytes(sent_params(params))
}

/// Builds a command container with `u32` parameters.
///
/// PTP gives a command five parameter slots. The function sends the first [`MAX_PARAMS`] and
/// drops the rest, because a device rejects a container with more.
pub fn build_command(code: u16, transaction_id: u32, params: &[u32]) -> (r: Vec<u8>)
    ensures
        r@ == command_bytes(code, transaction_id, params@),
{
    let take: usize = if params.len() < MAX_PARAMS {
        params.len()
    } else {
        MAX_PARAMS
    };
    let length: u32 = (HEADER_LEN + take * 4) as u32;
    let mut out: Vec<u8> = Vec::new();
    push_header(&mut out, length, ContainerType::Command, code, transaction_id);
    let ghost head = out@;
    let ghost sent = sent_params(params@);
    proof {
        assert(sent.take(0) =~= Seq::empty());
    }
    let mut i: usize = 0;
    while i < take
        invariant
            i <= take <= params@.len(),
            sent == sent_params(params@),
            sent.len() == take,
            out@ == head + bytes::u32_list_bytes(sent.take(i as int)),
        decreases take - i,
    {
        bytes::push_u32(&mut out, params[i]);
        proof {
            assert(sent.take(i + 1).drop_last() =~= sent.take(i as int));
            assert(out@ =~= head + bytes::u32_list_bytes(sent.take(i + 1)));
        }
        i = i + 1;
    }
    proof {
        assert(sent.take(take as int) =~= sent);
    }
    out
}

/// Every container type survives the way to the wire and back.
pub proof fn law_kind_round_trip(kind: ContainerType)
    ensures
        kind_of(kind.wire()) == Some(kind),
{
}

/// A wire value that stands for a container type is the wire value of that type.
pub proof fn law_wire_round_trip(v: u16)
    ensures
        match kind_of(v) {
            Some(kind) => kind.wire() == v,
            None => v == 0 || v > 4,
        },
{
}

/// A written header reads back as it was, whatever follows it.
pub proof fn law_header_round_trip(h: Header, after: Seq<u8>)
    ensures
        header_bytes(h).len() == HEADER_LEN,
        header_at(header_bytes(h) + after) == Ok::<Header, ParseError>(h),
{
    let a = bytes::u32_bytes(h.length);
    let b = bytes::u16_bytes(h.kind.wire());
    let c = bytes::u16_bytes(h.code);
    let d = bytes::u32_bytes(h.transaction_id);
    let whole = header_bytes(h) + after;
    bytes::lemma_u32_round_trip(Seq::empty(), h.length, b + c + d + after);
    assert(whole =~= Seq::empty() + a + (b + c + d + after));
    bytes::lemma_u16_round_trip(a, h.kind.wire(), c + d + after);
    assert(whole =~= a + b + (c + d + after));
    bytes::lemma_u16_round_trip(a + b, h.code, d + after);
    assert(whole =~= a + b + c + (d + after));
    bytes::lemma_u32_round_trip(a + b + c, h.transaction_id, after);
    assert(whole =~= a + b + c + d + after);
    law_kind_round_trip(h.kind);
}

/// A built container parses back to its kind, code, transaction and payload. Bytes behind the
/// container do not disturb it, and its length field counts the header and the payload.
pub proof fn law_container_round_trip(
    kind: ContainerType,
    code: u16,
    transaction_id: u32,
    payload: Seq<u8>,
    after: Seq<u8>,
)
    requires
        payload.len() <= MAX_PAYLOAD_LEN,
    ensures
        ({
            let h = Header {
                length: (HEADER_LEN + payload.len()) as u32,
                kind,
                code,
                transaction_id,
            };
            let whole = header_bytes(h) + payload + after;
            &&& h.length == HEADER_LEN + payload.len()
            &&& whole_container(whole) == Ok::<Header, ParseError>(h)
            &&& whole.subrange(HEADER_LEN as int, h.length as int) == payload
        }),
{
    let h = Header {
        length: (HEADER_LEN + payload.len()) as u32,
        kind,
        code,
        transaction_id,
    };
    let whole = header_bytes(h) + payload + after;
    law_header_round_trip(h, payload + after);
    assert(whole =~= header_bytes(h) + (payload + after));
    assert(whole.subrange(HEADER_LEN as int, h.length as int) =~= payload);
}

/// A command container parses back to its code, its transaction and its first five parameters.
pub proof fn law_command_round_trip(code: u16, transaction_id: u32, params: Seq<u32>)
    ensures
        ({
            let whole = command_bytes(code, transaction_id, params);
            let h = Header {
                length: (HEADER_LEN + 4 * sent_params(params).len()) as u32,
                kind: ContainerType::Command,
                code,
                transaction_id,
            };
            &&& whole.len() == HEADER_LEN + 4 * sent_params(params).len()
            &&& whole_container(whole) == Ok::<Header, ParseError>(h)
            &&& params_of(whole.subrange(HEADER_LEN as int, h.length as int)) == sent_params(params)
        }),
{
    let sent = sent_params(params);
    let list = bytes::u32_list_bytes(sent);
    let h = Header {
        length: (HEADER_LEN + 4 * sent.len()) as u32,
        kind: ContainerType::Command,
        code,
        transaction_id,
    };
    bytes::lemma_u32_list_len(sent);
    law_header_round_trip(h, list);
    let whole = command_bytes(code, transaction_id, params);
    let payload = whole.subrange(HEADER_LEN as int, h.length as int);
    assert(payload =~= list);
    assert forall|i: int| 0 <= i < sent.len() implies params_of(payload)[i] == sent[i] by {
        bytes::lemma_u32_list_at(sent, Seq::empty(), Seq::empty(), i);
        assert(Seq::<u8>::empty() + list + Seq::<u8>::empty() =~= list);
    }
    assert(params_of(payload) =~= sent);
}

/// A data header declares its own 12 bytes and the payload that follows in later transfers.
pub proof fn law_data_header_counts_the_payload(code: u16, transaction_id: u32, payload_len: u64)
    requires
        payload_len <= MAX_PAYLOAD_LEN,
    ensures
        ({
            let h = Header {
                length: (HEADER_LEN + payload_len) as u32,
                kind: ContainerType::Data,
                code,
                transaction_id,
            };
            &&& header_at(header_bytes(h)) == Ok::<Header, ParseError>(h)
            &&& payload_len_of(h.length) == payload_len
        }),
{
    let h = Header {
        length: (HEADER_LEN + payload_len) as u32,
        kind: ContainerType::Data,
        code,
        transaction_id,
    };
    law_header_round_trip(h, Seq::empty());
    assert(header_bytes(h) + Seq::<u8>::empty() =~= header_bytes(h));
}

/// Which bytes are a whole container, and what they say: a header of 12 bytes with a kind from 1 to 4, and
/// with a length that counts the header and that the buffer holds. Everything else is an error, and the
/// error says what is wrong.
pub proof fn law_a_container_is_what_its_bytes_say(buf: Seq<u8>)
    ensures
        whole_container(buf) is Ok <==> {
            &&& buf.len() >= 12
            &&& 1 <= bytes::u16_at(buf, 4) <= 4
            &&& 12 <= bytes::u32_at(buf, 0) <= buf.len()
        },
        header_at(buf) is Ok <==> buf.len() >= 12 && 1 <= bytes::u16_at(buf, 4) <= 4,
        header_at(buf) is Ok ==> {
            let h = header_at(buf)->Ok_0;
            &&& h.length == bytes::u32_at(buf, 0)
            &&& (h.kind is Command) == (bytes::u16_at(buf, 4) == 1)
            &&& (h.kind is Data) == (bytes::u16_at(buf, 4) == 2)
            &&& (h.kind is Response) == (bytes::u16_at(buf, 4) == 3)
            &&& (h.kind is Event) == (bytes::u16_at(buf, 4) == 4)
            &&& h.code == bytes::u16_at(buf, 6)
            &&& h.transaction_id == bytes::u32_at(buf, 8)
        },
        whole_container(buf) is Ok ==> whole_container(buf) == header_at(buf),
        buf.len() < 12 ==> whole_container(buf) == Err::<Header, ParseError>(
            ParseError::ShortHeader { got: buf.len() as usize },
        ),
        header_at(buf) is Ok && whole_container(buf) is Err ==> whole_container(buf) == Err::<
            Header,
            ParseError,
        >(
            ParseError::LengthMismatch {
                declared: bytes::u32_at(buf, 0),
                available: buf.len() as usize,
            },
        ),
        buf.len() >= 12 && header_at(buf) is Err ==> whole_container(buf) == Err::<Header, ParseError>(
            ParseError::UnknownContainerType(bytes::u16_at(buf, 4)),
        ),
{
}

/// Parameters read back as they were written, however many there are. Up to three bytes behind the last
/// whole one are ignored.
pub proof fn law_parameters_round_trip(v: Seq<u32>, tail: Seq<u8>)
    requires
        tail.len() < 4,
    ensures
        params_of(bytes::u32_list_bytes(v) + tail) == v,
{
    let list = bytes::u32_list_bytes(v);
    bytes::lemma_u32_list_len(v);
    let whole = list + tail;
    assert forall|i: int| 0 <= i < v.len() implies params_of(whole)[i] == v[i] by {
        bytes::lemma_u32_list_at(v, Seq::empty(), tail, i);
        assert(Seq::<u8>::empty() + list + tail =~= whole);
    }
    assert(params_of(whole) =~= v);
}

/// A command carries every parameter up to the fifth, in order, and none behind it.
pub proof fn law_a_command_carries_five_parameters(params: Seq<u32>)
    ensures
        params.len() <= 5 ==> sent_params(params) == params,
        params.len() > 5 ==> sent_params(params).len() == 5,
        forall|i: int|
            0 <= i < sent_params(params).len() ==> #[trigger] sent_params(params)[i] == params[i],
{
}

/// What a command container holds, byte by byte: its size, the kind of a command, the code, the
/// transaction, and the parameters.
pub proof fn law_what_a_command_holds(code: u16, transaction_id: u32, params: Seq<u32>)
    requires
        params.len() <= 5,
    ensures
        ({
            let c = command_bytes(code, transaction_id, params);
            &&& c.len() == 12 + 4 * params.len()
            &&& bytes::u32_at(c, 0) == c.len()
            &&& bytes::u16_at(c, 4) == 1
            &&& bytes::u16_at(c, 6) == code
            &&& bytes::u32_at(c, 8) == transaction_id
            &&& forall|i: int|
                0 <= i < params.len() ==> bytes::u32_at(c, 12 + 4 * i) == #[trigger] params[i]
        }),
{
    let c = command_bytes(code, transaction_id, params);
    let list = bytes::u32_list_bytes(params);
    let h = Header {
        length: (HEADER_LEN + 4 * params.len()) as u32,
        kind: ContainerType::Command,
        code,
        transaction_id,
    };
    bytes::lemma_u32_list_len(params);
    law_header_round_trip(h, list);
    law_a_container_is_what_its_bytes_say(c);
    assert forall|i: int| 0 <= i < params.len() implies bytes::u32_at(c, 12 + 4 * i)
        == #[trigger] params[i] by {
        bytes::lemma_u32_list_at(params, header_bytes(h), Seq::empty(), i);
        assert(header_bytes(h) + list + Seq::<u8>::empty() =~= c);
    }
}

/// A length field declares as many payload bytes as it has beyond the 12 bytes of the header, and none
/// where it does not even cover the header.
pub proof fn law_a_length_counts_the_header(length: u32)
    ensures
        length >= 12 ==> payload_len_of(length) + 12 == length,
        length < 12 ==> payload_len_of(length) == 0,
{
}

/// Whether bytes are a command container for this operation, transaction and parameters.
pub open spec fn is_command(c: Seq<u8>, code: u16, transaction: u32, params: Seq<u32>) -> bool {
    &&& c.len() == 12 + 4 * params.len()
    &&& bytes::u16_at(c, 4) == 1
    &&& bytes::u16_at(c, 6) == code
    &&& bytes::u32_at(c, 8) == transaction
    &&& forall|i: int|
        0 <= i < params.len() ==> bytes::u32_at(c, 12 + 4 * i) == #[trigger] params[i]
}

/// Every payload that the length field can count with the 12 bytes of the header makes a container, which reads
/// back with the same kind, code, transaction and payload, whatever stands behind it. No larger payload does.
pub proof fn law_a_built_container_reads_back<'a>(
    kind: ContainerType,
    code: u16,
    transaction_id: u32,
    payload: &[u8],
    r: Result<Vec<u8>, PayloadTooLarge>,
    buf: &'a [u8],
    extra: Seq<u8>,
    c: Result<Container<'a>, ParseError>,
)
    requires
        call_ensures(build, (kind, code, transaction_id, payload), r),
        r is Ok ==> buf@ == r->Ok_0@ + extra,
        call_ensures(Container::<'a>::parse, (buf,), c),
    ensures
        r is Ok <==> payload@.len() + 12 <= u32::MAX,
        r is Err ==> r->Err_0.len == payload@.len(),
        r is Ok ==> {
            &&& c is Ok
            &&& c->Ok_0.kind == kind
            &&& c->Ok_0.code == code
            &&& c->Ok_0.transaction_id == transaction_id
            &&& c->Ok_0.length == payload@.len() + 12
            &&& c->Ok_0.payload@ == payload@
        },
{
    if r is Ok {
        let h = Header {
            length: (HEADER_LEN + payload@.len()) as u32,
            kind,
            code,
            transaction_id,
        };
        law_header_round_trip(h, payload@ + extra);
        assert(buf@ =~= header_bytes(h) + (payload@ + extra));
        assert(buf@.subrange(12, h.length as int) =~= payload@);
    }
}

/// The header of a data phase counts the payload that is announced and itself, and names the operation and the
/// transaction. The length of a container is its payload and 12, where 32 bits hold that.
pub proof fn law_what_a_data_header_says(
    code: u16,
    transaction_id: u32,
    payload_len: u64,
    r: Result<Vec<u8>, PayloadTooLarge>,
    n: Result<u32, PayloadTooLarge>,
)
    requires
        call_ensures(build_data_header, (code, transaction_id, payload_len), r),
        call_ensures(container_length, (payload_len,), n),
    ensures
        r is Ok <==> payload_len + 12 <= u32::MAX,
        n is Ok <==> payload_len + 12 <= u32::MAX,
        n is Ok ==> n->Ok_0 == payload_len + 12,
        r is Ok ==> {
            &&& r->Ok_0@.len() == 12
            &&& bytes::u32_at(r->Ok_0@, 0) == payload_len + 12
            &&& bytes::u16_at(r->Ok_0@, 4) == 2
            &&& bytes::u16_at(r->Ok_0@, 6) == code
            &&& bytes::u32_at(r->Ok_0@, 8) == transaction_id
        },
{
    if r is Ok {
        let h = Header {
            length: (HEADER_LEN + payload_len) as u32,
            kind: ContainerType::Data,
            code,
            transaction_id,
        };
        law_header_round_trip(h, Seq::empty());
        assert(r->Ok_0@ =~= header_bytes(h) + Seq::<u8>::empty());
        law_a_container_is_what_its_bytes_say(r->Ok_0@);
    }
}

/// A command that is built is the command container of its arguments.
pub proof fn law_a_built_command_is_one(code: u16, transaction_id: u32, params: &[u32], r: Vec<u8>)
    requires
        params@.len() <= 5,
        call_ensures(build_command, (code, transaction_id, params), r),
    ensures
        is_command(r@, code, transaction_id, params@),
        bytes::u32_at(r@, 0) == r@.len(),
{
    law_what_a_command_holds(code, transaction_id, params@);
}

/// The parameters of a container are all of its payload, four bytes each.
pub proof fn law_parameters_are_the_whole_payload<'a>(
    c: &Container<'a>,
    v: Seq<u32>,
    tail: Seq<u8>,
    r: Vec<u32>,
    a: Result<Vec<u32>, ParseError>,
)
    requires
        tail.len() < 4,
        v.len() <= u32::MAX,
        call_ensures(Container::<'a>::parameters, (c,), r),
        call_ensures(Container::<'a>::payload_as_u32_array, (c,), a),
    ensures
        c.payload@ == bytes::u32_list_bytes(v) + tail ==> r@ == v,
        c.payload@ == bytes::u32_bytes(v.len() as u32) + bytes::u32_list_bytes(v) + tail ==> a is Ok
            && a->Ok_0@ == v,
{
    law_parameters_round_trip(v, tail);
    if c.payload@ == bytes::u32_bytes(v.len() as u32) + bytes::u32_list_bytes(v) + tail {
        reader::law_u32_array_round_trip(Seq::empty(), v, tail, "array");
        assert(Seq::<u8>::empty() + bytes::u32_bytes(v.len() as u32) + bytes::u32_list_bytes(v)
            + tail =~= c.payload@);
    }
}

/// The kinds of containers have the numbers 1 to 4 on the wire, and no other number is a kind.
pub proof fn law_kinds_have_numbers(v: u16, r: Result<ContainerType, ParseError>, k: ContainerType, w: u16)
    requires
        call_ensures(ContainerType::from_wire, (v,), r),
        call_ensures(ContainerType::to_wire, (k,), w),
    ensures
        r is Ok <==> 1 <= v <= 4,
        r is Err ==> r == Err::<ContainerType, ParseError>(ParseError::UnknownContainerType(v)),
        v == 1 ==> r->Ok_0 is Command,
        v == 2 ==> r->Ok_0 is Data,
        v == 3 ==> r->Ok_0 is Response,
        v == 4 ==> r->Ok_0 is Event,
        r is Ok && r->Ok_0 == k ==> w == v,
        1 <= w <= 4,
{
}

} // verus!
