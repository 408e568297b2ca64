//! How a session reads, writes and reports.

use std::io::Read;

use bsdroid::ptp::error::HEADER_LEN;
use bsdroid::session::config::{Config, READ_BUFFER_MIN, USB2_PACKET};
use bsdroid::session::error::SessionError;
use bsdroid::session::sending::{needs_zero_packet, read_exact_or_short, ReadFault};

/// A reader that gives nothing but a fault.
struct Failing;

impl Read for Failing {
    fn read(&mut self, _: &mut [u8]) -> std::io::Result<usize> {
        Err(std::io::Error::other("disk gone"))
    }
}

/// Fills a buffer from a reader.
fn fill<R: Read>(src: &mut R, buf: &mut [u8], step: &'static str) -> Result<(), SessionError> {
    let mut done = 0;
    while done < buf.len() {
        let got = match src.read(&mut buf[done..]) {
            Ok(n) => Ok(n),
            Err(e) if e.kind() == std::io::ErrorKind::Interrupted => Err(ReadFault::Interrupted),
            Err(e) => Err(ReadFault::Failed(e.to_string())),
        };
        done = read_exact_or_short(buf.len(), done, got, step)?;
    }
    Ok(())
}

#[test]
fn a_full_last_packet_needs_a_packet_of_zero_bytes() {
    // A file of 524276 bytes gives a data phase of 524288 bytes, which is
    // 1024 packets of 512 bytes. That size stopped a Samsung.
    assert!(needs_zero_packet(524_288, 512));
    assert!(needs_zero_packet(512, 512));
    assert!(needs_zero_packet(1024, 1024));
}

#[test]
fn a_part_packet_needs_no_packet_of_zero_bytes() {
    // A file of 680397437 bytes gives 680397449, which is not a multiple.
    assert!(!needs_zero_packet(680_397_449, 512));
    assert!(!needs_zero_packet(1, 512));
    assert!(!needs_zero_packet(513, 512));
}

#[test]
fn a_packet_size_of_zero_asks_for_no_packet() {
    assert!(!needs_zero_packet(512, 0));
}

/// A write chunk must be a whole number of USB packets.
///
/// A write that ends part way through a packet ends with a short packet,
/// and the device reads a short packet as the end of the data phase.
#[test]
fn a_write_chunk_rounds_down_to_whole_packets() {
    let c = Config {
        write_chunk: 1536,
        packet: 1024,
        ..Config::default()
    }
    .normalised();
    assert_eq!(c.write_chunk, 1024, "1536 is not a multiple of 1024");

    let c = Config {
        write_chunk: 1536,
        packet: 512,
        ..Config::default()
    }
    .normalised();
    assert_eq!(c.write_chunk, 1536, "1536 is a multiple of 512");
}

/// The first write holds a 12 byte header and some payload, so the chunk
/// must leave room for both.
#[test]
fn a_write_chunk_always_holds_a_header_and_a_packet() {
    for packet in [512u64, 1024] {
        let c = Config {
            write_chunk: 1,
            packet,
            ..Config::default()
        }
        .normalised();
        assert!(c.write_chunk > HEADER_LEN);
        assert_eq!(c.write_chunk % packet as usize, 0);
    }
}

#[test]
fn a_read_buffer_never_falls_below_the_minimum() {
    let c = Config {
        read_buffer: 8,
        ..Config::default()
    }
    .normalised();
    assert_eq!(c.read_buffer, READ_BUFFER_MIN);
}

#[test]
fn a_packet_size_of_zero_becomes_the_usb_2_size() {
    let c = Config {
        packet: 0,
        ..Config::default()
    }
    .normalised();
    assert_eq!(c.packet, USB2_PACKET);
}

#[test]
fn the_default_configuration_survives_normalisation() {
    let d = Config::default();
    assert_eq!(d.normalised(), d);
}

#[test]
fn a_short_reader_reports_the_count_it_gave() {
    let mut src = &b"1234"[..];
    let mut buf = [0u8; 8];
    let got = fill(&mut src, &mut buf, "SendObject");
    match got {
        Err(SessionError::ShortRead { want, got, .. }) => {
            assert_eq!(want, 8);
            assert_eq!(got, 4);
        }
        other => panic!("expected a short read, got {other:?}"),
    }
}

/// A read fault must reach the user with its cause.
#[test]
fn a_reader_that_fails_keeps_the_cause() {
    let mut buf = [0u8; 4];
    match fill(&mut Failing, &mut buf, "SendObject") {
        Err(e @ SessionError::ShortRead { .. }) => {
            assert!(e.message().contains("disk gone"), "{}", e.message());
        }
        other => panic!("expected a short read, got {other:?}"),
    }
}

#[test]
fn an_error_names_the_step_that_failed() {
    let e = SessionError::Incomplete {
        step: "GetObject",
        want: 100,
        got: 40,
    };
    assert_eq!(e.step(), "GetObject");
    assert!(e.message().contains("GetObject"));
}
