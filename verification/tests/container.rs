//! Containers, and the reader that never moves past the end.

use bsdroid::ptp::container::{
    build_command, build_data_header, container_length, Container, ContainerType, Header, MAX_PARAMS,
};
use bsdroid::ptp::error::{ParseError, PayloadTooLarge, HEADER_LEN, MAX_PAYLOAD_LEN};
use bsdroid::ptp::reader::Reader;

#[test]
fn container_type_survives_a_round_trip() {
    for t in [
        ContainerType::Command,
        ContainerType::Data,
        ContainerType::Response,
        ContainerType::Event,
    ] {
        assert_eq!(ContainerType::from_wire(t.to_wire()), Ok(t));
    }
}

#[test]
fn container_type_rejects_zero_and_five() {
    assert_eq!(
        ContainerType::from_wire(0),
        Err(ParseError::UnknownContainerType(0))
    );
    assert_eq!(
        ContainerType::from_wire(5),
        Err(ParseError::UnknownContainerType(5))
    );
}

#[test]
fn a_huge_array_count_does_not_reserve_memory() {
    // The payload claims 0xffffffff elements and holds none. The reader
    // must report a fault instead of reserving 16 GiB.
    let payload = [0xff, 0xff, 0xff, 0xff];
    let got = Reader::new(&payload).read_u32_array("array");
    assert!(matches!(got, Err(ParseError::Truncated { .. })), "{got:?}");
}

#[test]
fn an_empty_string_reads_as_empty() {
    let mut r = Reader::new(&[0x00]);
    assert_eq!(r.read_string("s").unwrap(), "");
}

#[test]
fn a_reader_never_moves_past_the_end() {
    let mut r = Reader::new(&[1, 2, 3]);
    assert!(r.read_u64("wide").is_err());
    // The failed read must leave the cursor where it was.
    assert_eq!(r.remaining(), 3);
}

/// A payload of `u32::MAX` bytes once wrapped the length field to 11.
///
/// A length of 11 is below the header size. The device then treats the
/// next command as payload, and the transfer never recovers.
#[test]
fn a_payload_that_does_not_fit_the_length_field_gives_an_error() {
    assert_eq!(
        container_length(u32::MAX as u64),
        Err(PayloadTooLarge {
            len: u32::MAX as u64
        })
    );
    assert!(container_length(MAX_PAYLOAD_LEN as u64 + 1).is_err());
    assert!(build_data_header(0x100d, 1, u32::MAX as u64).is_err());
}

#[test]
fn the_largest_payload_that_fits_gives_the_largest_length() {
    assert_eq!(container_length(MAX_PAYLOAD_LEN as u64), Ok(u32::MAX));
    assert_eq!(container_length(0), Ok(HEADER_LEN as u32));
}

/// The length field counts the header, so a header alone declares 12 plus
/// the payload that follows in later transfers.
#[test]
fn a_data_header_counts_the_payload_that_follows() {
    let h = build_data_header(0x1009, 7, 200_000).unwrap();
    assert_eq!(h.len(), HEADER_LEN, "the header carries no payload");

    let parsed = Header::parse(&h).unwrap();
    assert_eq!(parsed.length, 200_012);
    assert_eq!(parsed.payload_len(), 200_000);
    assert_eq!(parsed.kind, ContainerType::Data);
    assert_eq!(parsed.code, 0x1009);
    assert_eq!(parsed.transaction_id, 7);
}

/// PTP gives a command five parameter slots, so the payload cannot grow
/// past 20 bytes and the length field always holds it.
#[test]
fn a_command_sends_five_parameters_at_most() {
    let all = build_command(0x1007, 3, &[1, 2, 3, 4, 5, 6, 7]);
    assert_eq!(all.len(), HEADER_LEN + MAX_PARAMS * 4);

    let c = Container::parse(&all).unwrap();
    assert_eq!(c.parameters(), vec![1, 2, 3, 4, 5]);
}
