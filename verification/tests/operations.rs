//! Operations from their command to their outcome, with the answers of a device.

use std::collections::VecDeque;

use bsdroid::mtpfs::backend::{
    Mtp, Sink, Step, LIST_ROOT, OP_GET_DEVICE_INFO, OP_GET_OBJECT_HANDLES, OP_GET_OBJECT_INFO,
    OP_GET_STORAGE_IDS,
};
use bsdroid::mtpfs::error::Error;
use bsdroid::mtpfs::startup::{choose_partial_read, first_storage, wait_before_retry, StartupStep};
use bsdroid::mtpfs::tree::ROOT;
use bsdroid::probe::{
    Cycle, CycleStep, Probe, ProbeStage, ProbeStep, Reopen, ReopenStep, Times,
};
use bsdroid::ptp::container::{build, build_command, Container, ContainerType};
use bsdroid::ptp::device_info::DeviceInfo;
use bsdroid::ptp::error::{ParseError, PayloadTooLarge, HEADER_LEN, MAX_PAYLOAD_LEN};
use bsdroid::ptp::object::ObjectInfo;
use bsdroid::ptp::{op, resp};
use bsdroid::session::config::{Config, READ_BUFFER_MIN};
use bsdroid::session::drain::Drain;
use bsdroid::session::error::SessionError;
use bsdroid::session::exchange::{Due, Exchange};
use bsdroid::session::outcome::Outcome;
use bsdroid::session::repair::RepairStep;
use bsdroid::session::state::Session;
use bsdroid::time::Duration;
use bsdroid::usb::device::{
    BulkChannel, MtpChannels, MtpDevice, OpenDevice, TransferStatus, UsbError,
};

/// A device that gives these answers to reads, one after the other.
struct Device {
    answers: VecDeque<Result<Vec<u8>, UsbError>>,
    written: Vec<Vec<u8>>,
}

impl Device {
    fn new(answers: Vec<Vec<u8>>) -> Self {
        Device { answers: answers.into_iter().map(Ok).collect(), written: Vec::new() }
    }

    /// Does one operation to its end. The payload that the caller holds is `source`.
    fn run(&mut self, mut x: Exchange, mut source: &[u8]) -> Exchange {
        for _ in 0..100_000 {
            match x.due() {
                Due::Write(bytes) => {
                    self.written.push(bytes.to_vec());
                    x.wrote(Ok(()));
                }
                Due::Fetch(n) => {
                    if source.len() < n {
                        let got = source.len() as u64;
                        x.fetched(Err(SessionError::ShortRead {
                            step: "SendObject",
                            want: n as u64,
                            got,
                            source: None,
                        }));
                    } else {
                        x.fetched(Ok(source[..n].to_vec()));
                        source = &source[n..];
                    }
                }
                Due::Read(_) => x.got(self.answers.pop_front().expect("the device has an answer")),
                Due::Deliver(_) => x.delivered(Ok(())),
                Due::Over => return x,
            }
        }
        panic!("the operation does not end");
    }

    fn outcome(&mut self, x: Exchange) -> Result<Outcome, SessionError> {
        self.run(x, &[]).finish(Duration::from_millis(7))
    }
}

fn timed_out() -> UsbError {
    UsbError::Transfer { endpoint: 0x81, status: TransferStatus::TimedOut }
}

fn mtp_device() -> MtpDevice {
    MtpDevice {
        channels: MtpChannels {
            write: BulkChannel { endpoint: 0x01 },
            read: BulkChannel { endpoint: 0x81 },
        },
        device: OpenDevice { speed_value: 3 },
    }
}

fn session() -> Session {
    Session::new_without_recovery(mtp_device(), Config::default())
}

fn small_session() -> Session {
    Session::new_without_recovery(
        mtp_device(),
        Config { read_buffer: 512, write_chunk: 1024, packet: 512, ..Config::default() },
    )
}

fn data(code: u16, tid: u32, payload: &[u8]) -> Vec<u8> {
    build(ContainerType::Data, code, tid, payload).unwrap()
}

fn response(code: u16, tid: u32) -> Vec<u8> {
    build(ContainerType::Response, code, tid, &[]).unwrap()
}

fn response_with(code: u16, tid: u32, params: &[u32]) -> Vec<u8> {
    let payload: Vec<u8> = params.iter().flat_map(|p| p.to_le_bytes()).collect();
    build(ContainerType::Response, code, tid, &payload).unwrap()
}

fn array(values: &[u32]) -> Vec<u8> {
    let mut out = (values.len() as u32).to_le_bytes().to_vec();
    for v in values {
        out.extend_from_slice(&v.to_le_bytes());
    }
    out
}

fn outcome(code: u16, data: Vec<u8>, params: Vec<u32>) -> Result<Outcome, SessionError> {
    Ok(Outcome {
        response_code: code,
        data,
        response_params: params,
        elapsed: Duration::from_millis(1),
        reads: 1,
    })
}

fn ok(data: Vec<u8>) -> Result<Outcome, SessionError> {
    outcome(resp::OK, data, vec![])
}

// --- One operation ---

#[test]
fn an_operation_sends_a_command_and_reads_the_response() {
    let mut s = session();
    let x = s.operation("GetStorageIDs", 0x1004, &[7, 8]);
    let mut d = Device::new(vec![response_with(resp::OK, 0, &[5])]);
    let out = d.outcome(x).unwrap();
    assert_eq!(d.written, vec![build_command(0x1004, 0, &[7, 8])]);
    assert!(out.is_ok());
    assert_eq!(out.data, Vec::<u8>::new());
    assert_eq!(out.response_params, vec![5]);
    assert_eq!(out.reads, 1);
    assert_eq!(out.elapsed.as_millis(), 7);
    assert_eq!(out.as_u32_array(), Ok(vec![]));
}

#[test]
fn a_payload_joins_from_many_reads() {
    let payload: Vec<u8> = (0..1500u32).map(|i| i as u8).collect();
    let whole = data(0x1009, 0, &payload);
    let mut s = small_session();
    let x = s.operation("GetObject", 0x1009, &[4]);
    let mut d = Device::new(vec![
        whole[..512].to_vec(),
        whole[512..1024].to_vec(),
        whole[1024..].to_vec(),
        response(resp::OK, 0),
    ]);
    let out = d.outcome(x).unwrap();
    assert_eq!(out.data, payload);
    assert_eq!(out.reads, 3);
}

#[test]
fn a_streamed_payload_is_counted_and_not_kept() {
    let payload = vec![9u8; 700];
    let whole = data(0x1009, 0, &payload);
    let mut s = small_session();
    let x = s.operation_stream("GetObject", 0x1009, &[4]);
    let mut d = Device::new(vec![
        whole[..512].to_vec(),
        whole[512..].to_vec(),
        response(0x2002, 0),
    ]);
    let out = d.run(x, &[]).finish_stream(Duration::from_secs(1)).unwrap();
    assert_eq!(out.bytes, 700);
    assert_eq!(out.reads, 2);
    assert!(!out.is_ok());
    assert_eq!(out.response_code, 0x2002);
}

#[test]
fn the_parts_of_a_streamed_payload_join_to_the_payload() {
    let payload: Vec<u8> = (0..1500u32).map(|i| i as u8).collect();
    let whole = data(0x1009, 0, &payload);
    let mut x = small_session().operation_stream("GetObject", 0x1009, &[4]);
    let mut answers = VecDeque::from(vec![
        whole[..512].to_vec(),
        whole[512..1024].to_vec(),
        whole[1024..].to_vec(),
        response(resp::OK, 0),
    ]);
    let mut parts: Vec<Vec<u8>> = Vec::new();
    loop {
        match x.due() {
            Due::Write(_) => x.wrote(Ok(())),
            Due::Read(_) => x.got(Ok(answers.pop_front().unwrap())),
            Due::Deliver(part) => {
                parts.push(part.to_vec());
                x.delivered(Ok(()));
            }
            Due::Over => break,
            Due::Fetch(_) => panic!("the operation sends no payload"),
        }
    }
    assert_eq!(parts.len(), 3);
    assert_eq!(parts.concat(), payload);
    assert_eq!(x.finish_stream(Duration::from_secs(1)).unwrap().bytes, 1500);
}

#[test]
fn a_writer_that_fails_ends_the_operation_with_its_cause() {
    let mut s = small_session();
    let mut x = s.operation_stream("GetObject", 0x1009, &[4]);
    x.wrote(Ok(()));
    x.got(Ok(data(0x1009, 0, &[1, 2, 3])));
    match x.due() {
        Due::Deliver(bytes) => assert_eq!(bytes, &[1, 2, 3]),
        other => panic!("bytes are due, and {other:?} came"),
    }
    x.delivered(Err("disk full".to_string()));
    let e = x.finish_stream(Duration::from_secs(0)).unwrap_err();
    assert_eq!(e, SessionError::Write { step: "GetObject", source: "disk full".to_string() });
    assert_eq!(e.message(), "GetObject: cannot write the payload: disk full");
}

#[test]
fn a_device_that_stops_early_gives_an_incomplete_data_phase() {
    let whole = data(0x1009, 0, &[0u8; 1000]);
    let mut s = small_session();
    let x = s.operation("GetObject", 0x1009, &[]);
    let mut d = Device::new(vec![whole[..512].to_vec(), vec![]]);
    assert_eq!(
        d.outcome(x).unwrap_err(),
        SessionError::Incomplete { step: "GetObject", want: 1012, got: 512 }
    );
}

#[test]
fn a_device_that_sends_too_little_for_ever_is_stopped() {
    let whole = data(0x1009, 0, &[0u8; 5000]);
    let mut answers = vec![whole[..512].to_vec()];
    for _ in 0..200 {
        answers.push(vec![0]);
    }
    let mut s = small_session();
    let x = s.operation("GetObject", 0x1009, &[]);
    let mut d = Device::new(answers);
    // 5012 bytes are nine reads of 512 bytes and a part, and 16 reads come on top.
    assert_eq!(
        d.outcome(x).unwrap_err(),
        SessionError::Incomplete { step: "GetObject", want: 5012, got: 512 + 25 }
    );
}

#[test]
fn a_container_of_another_kind_is_unexpected() {
    let mut s = session();
    let x = s.operation("GetStorageIDs", 0x1004, &[]);
    let mut d = Device::new(vec![build_command(0x1004, 0, &[])]);
    let e = d.outcome(x).unwrap_err();
    assert_eq!(
        e,
        SessionError::Unexpected {
            step: "GetStorageIDs",
            expected: ContainerType::Response,
            got: ContainerType::Command,
        }
    );
    assert_eq!(e.message(), "GetStorageIDs: the device sent Command, and Response was due");
}

#[test]
fn bytes_that_do_not_parse_are_a_fault() {
    let mut s = session();
    let x = s.operation("GetStorageIDs", 0x1004, &[]);
    let mut d = Device::new(vec![vec![1, 2, 3]]);
    assert_eq!(
        d.outcome(x).unwrap_err(),
        SessionError::Parse {
            step: "GetStorageIDs",
            source: ParseError::ShortHeader { got: 3 }
        }
    );
    let x = s.operation("GetStorageIDs", 0x1004, &[]);
    let mut d = Device::new(vec![data(0x1004, 1, &[0; 4]), vec![1; 5]]);
    assert_eq!(
        d.outcome(x).unwrap_err(),
        SessionError::Parse {
            step: "GetStorageIDs",
            source: ParseError::ShortHeader { got: 5 }
        }
    );
}

#[test]
fn a_transfer_that_fails_ends_the_operation() {
    let mut s = session();
    let mut x = s.operation("OpenSession", 0x1002, &[1]);
    x.wrote(Err(timed_out()));
    assert!(matches!(x.due(), Due::Over));
    assert_eq!(
        x.finish(Duration::from_secs(5)).unwrap_err(),
        SessionError::Usb { step: "OpenSession", source: timed_out() }
    );
    let mut x = s.operation("OpenSession", 0x1002, &[1]);
    x.wrote(Ok(()));
    x.got(Err(timed_out()));
    let e = x.finish(Duration::from_secs(5)).unwrap_err();
    assert_eq!(
        e.message(),
        "OpenSession: the transfer on endpoint 0x81 gave: timed out"
    );
}

#[test]
fn each_operation_takes_the_next_transaction() {
    let mut s = session();
    assert_eq!(s.next_transaction(), 0);
    let x = s.operation("GetStorageIDs", 0x1004, &[]);
    match x.due() {
        Due::Write(bytes) => assert_eq!(Container::parse(bytes).unwrap().transaction_id, 1),
        other => panic!("a command is due, and {other:?} came"),
    }
    assert_eq!(s.next_transaction(), 2);
}

// --- Operations that send ---

#[test]
fn a_data_phase_of_whole_packets_ends_with_a_packet_of_zero_bytes() {
    // The header and 1012 bytes are two packets of 512 bytes.
    let payload: Vec<u8> = (0..1012u32).map(|i| (i * 3) as u8).collect();
    let mut s = small_session();
    let x = s.operation_with_data("SendObject", op::SEND_OBJECT, &[], payload.clone()).unwrap();
    let mut d = Device::new(vec![response(resp::OK, 0)]);
    d.outcome(x).unwrap();
    assert_eq!(d.written.len(), 3);
    assert_eq!(d.written[0], build_command(op::SEND_OBJECT, 0, &[]));
    assert_eq!(d.written[1], data(op::SEND_OBJECT, 0, &payload));
    assert_eq!(d.written[2], Vec::<u8>::new());
}

#[test]
fn a_large_payload_goes_in_blocks_of_whole_packets() {
    let payload: Vec<u8> = (0..3000u32).map(|i| (i * 7) as u8).collect();
    let mut s = small_session();
    let x = s.operation_sending("SendObject", op::SEND_OBJECT, &[], 3000).unwrap();
    let mut d = Device::new(vec![response(resp::OK, 0)]);
    d.run(x, &payload).finish(Duration::from_secs(1)).unwrap();
    let blocks: Vec<usize> = d.written[1..].iter().map(|b| b.len()).collect();
    // 3012 bytes are no whole number of packets, so no packet of zero bytes follows.
    assert_eq!(blocks, vec![1024, 1024, 964]);
    assert_eq!(d.written[1..].concat(), data(op::SEND_OBJECT, 0, &payload));
}

#[test]
fn an_empty_payload_is_a_header_alone() {
    let mut s = small_session();
    let x = s.operation_with_data("SendObject", op::SEND_OBJECT, &[], vec![]).unwrap();
    let mut d = Device::new(vec![response(resp::OK, 0)]);
    d.outcome(x).unwrap();
    assert_eq!(d.written[1..], [data(op::SEND_OBJECT, 0, &[])]);
}

#[test]
fn a_source_that_ends_early_ends_the_operation() {
    let mut s = small_session();
    let x = s.operation_sending("SendObject", op::SEND_OBJECT, &[], 3000).unwrap();
    let mut d = Device::new(vec![]);
    let e = d.run(x, &[0; 1500]).finish(Duration::from_secs(1)).unwrap_err();
    assert!(matches!(e, SessionError::ShortRead { step: "SendObject", .. }));
}

#[test]
fn a_payload_that_no_container_can_carry_is_a_fault_before_anything_is_sent() {
    let mut s = session();
    let len = MAX_PAYLOAD_LEN as u64 + 1;
    let e = s.operation_sending("SendObject", op::SEND_OBJECT, &[], len).unwrap_err();
    assert_eq!(e, SessionError::Build { step: "SendObject", source: PayloadTooLarge { len } });
    assert_eq!(s.next_transaction(), 0);
}

// --- The session ---

#[test]
fn a_session_is_to_be_closed_once_it_was_opened() {
    let mut s = session();
    assert!(!s.needs_close());
    let opened = outcome(resp::SESSION_ALREADY_OPEN, vec![], vec![]).unwrap();
    s.opened(&opened);
    assert!(s.needs_close());
    let refused = outcome(0x2002, vec![], vec![]).unwrap();
    s.closed(&refused);
    assert!(s.needs_close());
    let closed = outcome(resp::OK, vec![], vec![]).unwrap();
    s.closed(&closed);
    assert!(!s.needs_close());
}

#[test]
fn a_session_starts_with_a_drain() {
    let (s, d) = Session::new(mtp_device(), Config { read_buffer: 8, ..Config::default() });
    assert_eq!(s.config().read_buffer, READ_BUFFER_MIN);
    assert_eq!(d.capacity, READ_BUFFER_MIN);
    assert_eq!(d, s.recover());
    assert_eq!(d, s.drain());
}

#[test]
fn a_read_buffer_can_change_and_never_falls_below_the_minimum() {
    let mut s = session();
    s.set_read_buffer(4096);
    assert_eq!(s.config().read_buffer, 4096);
    s.set_read_buffer(8);
    assert_eq!(s.config().read_buffer, READ_BUFFER_MIN);
}

#[test]
fn a_session_names_the_transfers_of_its_endpoints() {
    let s = session();
    let w = s.write_all(&[1, 2, 3]).unwrap();
    assert_eq!((w.endpoint, w.length), (0x01, 3));
    assert_eq!(u128::from(w.timeout_ms), s.config().timeout.as_millis());
    let r = s.read_once(512).unwrap();
    assert_eq!((r.endpoint, r.length), (0x81, 512));
    assert_eq!(s.reset_device(0), Ok(()));
    assert_eq!(s.reset_device(-99), Err(UsbError::Reset(-99)));
    assert_eq!(s.device_capabilities().unwrap().value, 0x0f00);
    assert_eq!(s.speed().name(), "high, USB 2.0");
}

#[test]
fn a_drain_waits_longer_only_while_bytes_come() {
    let mut d = Drain::new(512);
    let (size, first) = d.due().unwrap();
    assert_eq!((size, first.as_millis()), (512, 15));
    d.got(Ok(300));
    assert_eq!(d.due().unwrap().1.as_millis(), 250);
    d.got(Ok(12));
    d.got(Ok(0));
    assert!(d.due().is_none());
    assert_eq!(d.dropped, 312);

    let mut d = Drain::new(512);
    d.got(Err(timed_out()));
    assert!(d.due().is_none());
    assert_eq!(d.dropped, 0);
}

#[test]
fn a_drain_counts_what_it_drops() {
    let reads = [512usize, 512, 7, 300];
    for last in [Ok(0), Err(timed_out())] {
        let mut d = Drain::new(512);
        for n in reads {
            assert!(d.due().is_some());
            d.got(Ok(n));
        }
        assert!(d.due().is_some());
        d.got(last);
        assert!(d.due().is_none());
        assert_eq!(d.dropped, 1331);
    }
}

#[test]
fn a_session_that_opens_needs_no_repair() {
    let mut s = session();
    let RepairStep::Exchange(stage, x) = s.open_session_or_repair(1) else {
        panic!("an operation is due")
    };
    let mut d = Device::new(vec![response(resp::OK, 0)]);
    let r = d.outcome(x);
    assert_eq!(d.written, vec![build_command(op::OPEN_SESSION, 0, &[1])]);
    let RepairStep::Over(Ok(open)) = stage.answered(&mut s, r) else {
        panic!("the session is open")
    };
    assert!(!open.repaired && !open.wedged);
    assert_eq!((open.close_response, open.dropped), (None, 0));
    assert!(s.needs_close());
}

#[test]
fn a_session_that_an_earlier_program_left_is_closed_and_opened_again() {
    let mut s = session();
    let RepairStep::Exchange(stage, _) = s.open_session_or_repair(1) else {
        panic!("an operation is due")
    };
    let r = outcome(resp::SESSION_ALREADY_OPEN, vec![], vec![]);
    let RepairStep::Exchange(stage, x) = stage.answered(&mut s, r) else {
        panic!("a close is due")
    };
    match x.due() {
        Due::Write(b) => assert_eq!(b, build_command(op::CLOSE_SESSION, 1, &[])),
        other => panic!("a command is due, and {other:?} came"),
    }
    let RepairStep::Recover(stage, _) = stage.answered(&mut s, ok(vec![])) else {
        panic!("a drain is due")
    };
    let RepairStep::Exchange(stage, x) = stage.recovered(&mut s, 77) else {
        panic!("an open is due")
    };
    match x.due() {
        Due::Write(b) => assert_eq!(b, build_command(op::OPEN_SESSION, 2, &[1])),
        other => panic!("a command is due, and {other:?} came"),
    }
    let RepairStep::Over(Ok(open)) = stage.answered(&mut s, ok(vec![])) else {
        panic!("the session is open")
    };
    assert!(open.repaired && !open.wedged);
    assert_eq!((open.close_response, open.dropped), (Some(resp::OK), 77));
    assert!(s.needs_close());
}

#[test]
fn a_service_that_keeps_its_session_is_reported() {
    let mut s = session();
    let again = || outcome(resp::SESSION_ALREADY_OPEN, vec![], vec![]);
    let RepairStep::Exchange(stage, _) = s.open_session_or_repair(1) else {
        panic!("an operation is due")
    };
    let RepairStep::Exchange(stage, _) = stage.answered(&mut s, again()) else {
        panic!("a close is due")
    };
    let lost = Err(SessionError::Usb { step: "CloseSession", source: timed_out() });
    let RepairStep::Recover(stage, _) = stage.answered(&mut s, lost) else {
        panic!("a drain is due")
    };
    let RepairStep::Exchange(stage, _) = stage.recovered(&mut s, 0) else {
        panic!("an open is due")
    };
    let RepairStep::Over(Ok(open)) = stage.answered(&mut s, again()) else {
        panic!("the repair is over")
    };
    assert!(open.wedged && open.repaired);
    assert_eq!(open.close_response, None);
}

// --- The backend ---

fn info(operations: &[u16]) -> DeviceInfo {
    DeviceInfo {
        standard_version: 100,
        vendor_extension_id: 6,
        vendor_extension_version: 100,
        vendor_extension_desc: String::new(),
        operations_supported: operations.to_vec(),
        events_supported: vec![],
        device_properties_supported: vec![],
        capture_formats: vec![],
        image_formats: vec![],
        manufacturer: "samsung".to_string(),
        model: "SM-S901U".to_string(),
        device_version: String::new(),
        serial_number: String::new(),
    }
}

fn backend() -> Mtp {
    Mtp::new(session(), info(&[]), op::GET_PARTIAL_OBJECT_64, 0x0001_0001)
}

fn command_of(x: &Exchange) -> (u16, Vec<u32>) {
    match x.due() {
        Due::Write(bytes) => {
            let c = Container::parse(bytes).unwrap();
            (c.code, c.parameters())
        }
        other => panic!("a command is due, and {other:?} came"),
    }
}

#[test]
fn a_backend_names_its_device() {
    assert_eq!(backend().name(), "samsung SM-S901U");
    let mut unnamed = info(&[]);
    unnamed.manufacturer = String::new();
    let m = Mtp::new(session(), unnamed, op::GET_PARTIAL_OBJECT, 1);
    assert_eq!(m.name(), "SM-S901U");
}

#[test]
fn a_listing_reads_the_handles_and_then_each_object() {
    let mut m = backend();
    let (l, x) = m.list(ROOT);
    assert_eq!(command_of(&x), (OP_GET_OBJECT_HANDLES, vec![0x0001_0001, 0, LIST_ROOT]));
    let Step::Exchange(l, x) = l.answered(&mut m, ok(array(&[3, 9]))) else {
        panic!("an object is due")
    };
    assert_eq!(command_of(&x), (OP_GET_OBJECT_INFO, vec![3]));
    let folder = ObjectInfo::build_for_send(0x0001_0001, 0, "DCIM", 0, true);
    let Step::Exchange(l, x) = l.answered(&mut m, ok(folder)) else {
        panic!("an object is due")
    };
    assert_eq!(command_of(&x), (OP_GET_OBJECT_INFO, vec![9]));
    let file = ObjectInfo::build_for_send(0x0001_0001, 0, "a.jpg", 1000, false);
    let Step::Over(Ok(entries)) = l.answered(&mut m, ok(file)) else {
        panic!("the listing is over")
    };
    assert_eq!(entries.len(), 2);
    assert_eq!((entries[0].handle, entries[0].parent, entries[0].is_dir), (3, ROOT, true));
    assert_eq!(entries[0].name, "DCIM");
    assert_eq!((entries[1].handle, entries[1].size, entries[1].is_dir), (9, 1000, false));
}

#[test]
fn a_folder_has_no_size() {
    let mut folder = ObjectInfo::build_for_send(0x0001_0001, 0, "DCIM", 0, true);
    folder[8..12].copy_from_slice(&4096u32.to_le_bytes());
    assert_eq!(ObjectInfo::parse(&folder).unwrap().compressed_size, 4096);

    let mut m = backend();
    let (l, _) = m.list(ROOT);
    let Step::Exchange(l, _) = l.answered(&mut m, ok(array(&[3]))) else {
        panic!("an object is due")
    };
    let Step::Over(Ok(entries)) = l.answered(&mut m, ok(folder)) else {
        panic!("the listing is over")
    };
    assert_eq!((entries[0].is_dir, entries[0].size), (true, 0));
}

#[test]
fn a_folder_that_cannot_be_listed_is_a_fault() {
    let mut m = backend();
    let (l, x) = m.list(5);
    assert_eq!(command_of(&x), (OP_GET_OBJECT_HANDLES, vec![0x0001_0001, 0, 5]));
    let Step::Over(Err(e)) = l.answered(&mut m, outcome(0x2009, vec![], vec![])) else {
        panic!("the listing is over")
    };
    assert_eq!(e, Error::Device { step: "GetObjectHandles", code: 0x2009 });
    assert_eq!(
        e.message(),
        "GetObjectHandles: the device answered with the code 0x2009"
    );
}

#[test]
fn a_read_that_would_stop_the_device_takes_its_last_byte_alone() {
    // 307200 bytes are 600 packets of 512 bytes.
    let file: Vec<u8> = (0..307_200u32).map(|i| (i / 5) as u8).collect();
    let mut m = backend();
    let Step::Exchange(r, x) = m.read_at(4, 0, 307_200, 307_200) else {
        panic!("an operation is due")
    };
    assert_eq!(command_of(&x), (op::GET_PARTIAL_OBJECT_64, vec![4, 0, 0, 307_199]));
    let Step::Exchange(r, x) = r.answered(&mut m, ok(file[..307_199].to_vec())) else {
        panic!("the last byte is due")
    };
    assert_eq!(command_of(&x), (op::GET_PARTIAL_OBJECT_64, vec![4, 307_199, 0, 1]));
    let Step::Over(Ok(got)) = r.answered(&mut m, ok(file[307_199..].to_vec())) else {
        panic!("the read is over")
    };
    assert_eq!(got, file);
}

#[test]
fn a_read_inside_a_file_is_one_request() {
    let mut m = backend();
    let Step::Exchange(r, x) = m.read_at(4, 0x1_0000_0200, 512, 0x2_0000_0000) else {
        panic!("an operation is due")
    };
    assert_eq!(command_of(&x), (op::GET_PARTIAL_OBJECT_64, vec![4, 0x200, 1, 512]));
    let Step::Over(Ok(got)) = r.answered(&mut m, ok(vec![7; 512])) else {
        panic!("the read is over")
    };
    assert_eq!(got, vec![7; 512]);
}

#[test]
fn a_read_of_no_byte_asks_for_nothing() {
    let mut m = backend();
    let Step::Over(Ok(got)) = m.read_at(4, 0, 0, 100) else {
        panic!("the read is over")
    };
    assert_eq!(got, Vec::<u8>::new());
}

#[test]
fn a_device_without_wide_offsets_gets_narrow_ones() {
    let mut m = Mtp::new(session(), info(&[]), op::GET_PARTIAL_OBJECT, 1);
    let Step::Exchange(_, x) = m.read_at(4, 100, 50, 1000) else {
        panic!("an operation is due")
    };
    assert_eq!(command_of(&x), (op::GET_PARTIAL_OBJECT, vec![4, 100, 50]));
}

#[test]
fn a_new_file_is_announced_and_then_sent() {
    let mut m = backend();
    let Step::Exchange(st, x) = m.send_object(ROOT, "new.txt", b"hello".to_vec(), false) else {
        panic!("an operation is due")
    };
    assert_eq!(command_of(&x), (op::SEND_OBJECT_INFO, vec![0x0001_0001, LIST_ROOT]));
    let mut d = Device::new(vec![response_with(resp::OK, 0, &[0x0001_0001, 0, 42])]);
    let r = d.outcome(x);
    let sent = ObjectInfo::parse(&d.written[1][HEADER_LEN..]).unwrap();
    assert_eq!((sent.filename.as_str(), sent.compressed_size), ("new.txt", 5));
    let Step::Exchange(st, x) = st.announced(&mut m, r) else {
        panic!("the bytes are due")
    };
    let mut d = Device::new(vec![response(resp::OK, 1)]);
    let r = d.outcome(x);
    assert_eq!(d.written[1], data(op::SEND_OBJECT, 1, b"hello"));
    assert_eq!(st.sent(r), Ok(Some(42)));
}

#[test]
fn a_new_folder_needs_no_bytes() {
    let mut m = backend();
    let Step::Exchange(st, _) = m.send_object(7, "New", vec![], true) else {
        panic!("an operation is due")
    };
    let r = outcome(resp::OK, vec![], vec![0x0001_0001, 7, 43]);
    let Step::Over(Ok(handle)) = st.announced(&mut m, r) else {
        panic!("the folder is complete")
    };
    assert_eq!(handle, Some(43));
}

#[test]
fn a_full_store_refuses_a_file() {
    let mut m = backend();
    let Step::Exchange(st, _) = m.send_object(7, "big", vec![0; 9], false) else {
        panic!("an operation is due")
    };
    let Step::Over(Err(e)) = st.announced(&mut m, outcome(0x200d, vec![], vec![])) else {
        panic!("the file is refused")
    };
    assert_eq!(e, Error::Device { step: "SendObjectInfo", code: 0x200d });
}

#[test]
fn a_removal_names_the_object() {
    let mut m = backend();
    let x = m.delete_object(12);
    assert_eq!(command_of(&x), (op::DELETE_OBJECT, vec![12, 0]));
    assert_eq!(m.deleted(ok(vec![])), Ok(()));
    assert_eq!(
        m.deleted(outcome(0x2009, vec![], vec![])),
        Err(Error::Device { step: "DeleteObject", code: 0x2009 })
    );
}

#[test]
fn a_sink_takes_every_byte() {
    assert_eq!(Sink.write(&[1, 2, 3]), 3);
}

// --- The start of a backend ---

fn device_info_bytes(operations: &[u16]) -> Vec<u8> {
    let mut b = vec![100, 0, 6, 0, 0, 0, 100, 0, 0, 0, 0];
    b.extend_from_slice(&(operations.len() as u32).to_le_bytes());
    for o in operations {
        b.extend_from_slice(&o.to_le_bytes());
    }
    b.extend_from_slice(&[0; 16]);
    b.extend_from_slice(&[2, b'M', 0, 0, 0, 2, b'G', 0, 0, 0, 0, 0]);
    b
}

fn started(operations: &[u16]) -> StartupStep {
    let StartupStep::Drain(st, _) = Mtp::open(mtp_device(), Config::default()) else {
        panic!("a drain is due")
    };
    let StartupStep::Exchange(st, x) = st.drained(0) else {
        panic!("an operation is due")
    };
    assert_eq!(command_of(&x), (op::OPEN_SESSION, vec![1]));
    let StartupStep::Exchange(st, x) = st.answered(ok(vec![])) else {
        panic!("an operation is due")
    };
    assert_eq!(command_of(&x), (OP_GET_DEVICE_INFO, vec![]));
    st.answered(ok(device_info_bytes(operations)))
}

#[test]
fn a_backend_starts_on_the_first_storage() {
    let StartupStep::Exchange(st, x) = started(&[op::GET_PARTIAL_OBJECT, op::GET_PARTIAL_OBJECT_64])
    else {
        panic!("an operation is due")
    };
    assert_eq!(command_of(&x), (OP_GET_STORAGE_IDS, vec![]));
    let StartupStep::Ready(mut m) = st.answered(ok(array(&[0x0001_0001, 0x0002_0001]))) else {
        panic!("the backend is ready")
    };
    assert_eq!(m.name(), "M G");
    let (_, x) = m.list(8);
    assert_eq!(command_of(&x).1, vec![0x0001_0001, 0, 8]);
    assert!(m.session().needs_close());
}

#[test]
fn a_storage_that_comes_late_is_waited_for() {
    let StartupStep::Exchange(mut st, _) = started(&[op::GET_PARTIAL_OBJECT]) else {
        panic!("an operation is due")
    };
    for _ in 1..10 {
        let StartupStep::Wait(w, time) = st.answered(ok(array(&[]))) else {
            panic!("a wait is due")
        };
        assert_eq!(time.as_millis(), 300);
        let StartupStep::Exchange(next, _) = w.waited() else {
            panic!("an operation is due")
        };
        st = next;
    }
    let StartupStep::Failed(_, e) = st.answered(ok(array(&[]))) else {
        panic!("the tenth answer is the last")
    };
    assert_eq!(e, Error::NoStorage);
}

#[test]
fn a_device_that_reads_no_part_of_a_file_is_refused() {
    let StartupStep::Failed(s, e) = started(&[0x1009]) else {
        panic!("the backend cannot start")
    };
    assert_eq!(e, Error::NoPartialRead);
    assert!(s.needs_close());
}

#[test]
fn the_wide_partial_read_is_the_better_one() {
    assert_eq!(choose_partial_read(&info(&[0x101b, 0x95c1])), Some(op::GET_PARTIAL_OBJECT_64));
    assert_eq!(choose_partial_read(&info(&[0x101b])), Some(op::GET_PARTIAL_OBJECT));
    assert_eq!(choose_partial_read(&info(&[0x1009])), None);
    assert_eq!(first_storage(&array(&[5, 6])), Some(5));
    assert_eq!(first_storage(&array(&[])), None);
}

#[test]
fn a_busy_device_is_tried_again() {
    let busy = Error::Session(SessionError::Usb { step: "OpenSession", source: timed_out() });
    assert_eq!(wait_before_retry(1, &busy).unwrap().as_millis(), 300);
    assert!(wait_before_retry(9, &Error::Usb(timed_out())).is_some());
    assert!(wait_before_retry(10, &busy).is_none());
    for e in [
        Error::Device { step: "OpenSession", code: 0x2002 },
        Error::Parse(ParseError::UnknownContainerType(0)),
        Error::NoPartialRead,
    ] {
        assert!(wait_before_retry(1, &e).is_none(), "{}", e.message());
    }
}

// --- The probe ---

#[test]
fn a_probe_passes_on_a_device_that_answers() {
    let ProbeStep::Exchange(p, x) = Probe::start(session()) else {
        panic!("an operation is due")
    };
    assert_eq!(command_of(&x), (0x1002, vec![1]));
    let ProbeStep::Exchange(p, x) = p.answered(ok(vec![])) else {
        panic!("an operation is due")
    };
    assert_eq!(command_of(&x), (0x1004, vec![]));
    let ProbeStep::Exchange(p, x) = p.answered(ok(array(&[11, 12]))) else {
        panic!("an operation is due")
    };
    assert_eq!(command_of(&x), (0x1005, vec![11]));
    assert_eq!(p.stage(), &ProbeStage::Info { ids: vec![11, 12], next: 0 });
    let ProbeStep::Exchange(p, x) = p.answered(ok(vec![])) else {
        panic!("an operation is due")
    };
    assert_eq!(command_of(&x), (0x1005, vec![12]));
    let ProbeStep::Exchange(p, x) = p.answered(ok(vec![])) else {
        panic!("an operation is due")
    };
    assert_eq!(command_of(&x), (0x1003, vec![]));
    let ProbeStep::Exchange(p, x) = p.answered(ok(vec![])) else {
        panic!("an operation is due")
    };
    assert_eq!(command_of(&x), (0x1002, vec![2]));
    let ProbeStep::Exchange(p, x) = p.answered(ok(vec![])) else {
        panic!("an operation is due")
    };
    assert_eq!(command_of(&x), (0x1003, vec![]));
    let ProbeStep::Over(s, r) = p.answered(ok(vec![])) else {
        panic!("the probe is over")
    };
    assert_eq!(r, Ok(()));
    assert!(!s.needs_close());
}

#[test]
fn a_probe_of_a_locked_device_says_so() {
    let ProbeStep::Exchange(p, _) = Probe::start(session()) else {
        panic!("an operation is due")
    };
    let ProbeStep::Exchange(mut p, _) = p.answered(ok(vec![])) else {
        panic!("an operation is due")
    };
    for attempt in 1..10 {
        assert_eq!(p.stage(), &ProbeStage::Storages { attempt });
        let ProbeStep::Wait(w, time) = p.answered(ok(array(&[]))) else {
            panic!("a wait is due")
        };
        assert_eq!(time.as_millis(), 300);
        let ProbeStep::Exchange(next, x) = w.waited() else {
            panic!("an operation is due")
        };
        assert_eq!(command_of(&x), (0x1004, vec![]));
        p = next;
    }
    let ProbeStep::Exchange(p, x) = p.answered(ok(array(&[]))) else {
        panic!("the tenth answer is the last, and a close is due")
    };
    assert_eq!(command_of(&x), (0x1003, vec![]));
    let ProbeStep::Over(_, r) = p.answered(ok(vec![])) else {
        panic!("the probe is over")
    };
    assert_eq!(r, Err("the device reports 0 storages".to_string()));
}

#[test]
fn a_probe_takes_a_storage_that_comes_late() {
    let ProbeStep::Exchange(p, _) = Probe::start(session()) else {
        panic!("an operation is due")
    };
    let ProbeStep::Exchange(p, _) = p.answered(ok(vec![])) else {
        panic!("an operation is due")
    };
    let ProbeStep::Wait(p, _) = p.answered(ok(array(&[]))) else {
        panic!("a wait is due")
    };
    let ProbeStep::Exchange(p, _) = p.waited() else {
        panic!("an operation is due")
    };
    let ProbeStep::Exchange(p, x) = p.answered(ok(array(&[11]))) else {
        panic!("an operation is due")
    };
    assert_eq!(command_of(&x), (0x1005, vec![11]));
    assert_eq!(p.stage(), &ProbeStage::Info { ids: vec![11], next: 0 });
}

#[test]
fn a_probe_stops_at_the_step_that_fails() {
    let ProbeStep::Exchange(p, _) = Probe::start(session()) else {
        panic!("an operation is due")
    };
    let ProbeStep::Over(_, r) = p.answered(outcome(0x201e, vec![], vec![])) else {
        panic!("the probe is over")
    };
    assert_eq!(r, Err("OpenSession gave 0x201e Session already open".to_string()));
}

#[test]
fn a_probe_that_ends_early_keeps_the_session_to_be_closed() {
    let lost = || Err(SessionError::Usb { step: "GetStorageIDs", source: timed_out() });
    let next = |p: Probe, data: Vec<u8>| {
        let ProbeStep::Exchange(p, _) = p.answered(ok(data)) else {
            panic!("an operation is due")
        };
        p
    };
    let over = |p: Probe, r: Result<Outcome, SessionError>| {
        let ProbeStep::Over(s, Err(_)) = p.answered(r) else {
            panic!("the probe is over")
        };
        s.needs_close()
    };
    let start = || {
        let ProbeStep::Exchange(p, _) = Probe::start(session()) else {
            panic!("an operation is due")
        };
        p
    };
    assert!(!over(start(), lost()), "the device opened no session");
    assert!(over(next(start(), vec![]), lost()));
    assert!(over(next(next(start(), vec![]), array(&[11])), outcome(0x2013, vec![], vec![])));

    let closing = || next(next(next(start(), vec![]), array(&[11])), vec![]);
    assert_eq!(closing().stage(), &ProbeStage::CloseFirst);
    assert!(over(closing(), lost()));
    assert!(over(closing(), outcome(0x2002, vec![], vec![])));
    assert!(!over(next(closing(), vec![]), lost()), "the first session is closed");
}

#[test]
fn a_cycle_counts_the_storages() {
    let CycleStep::Exchange(c, x) = Cycle::start(session()) else {
        panic!("an operation is due")
    };
    assert_eq!(command_of(&x), (0x1002, vec![1]));
    let CycleStep::Exchange(c, x) = c.answered(ok(vec![])) else {
        panic!("an operation is due")
    };
    assert_eq!(command_of(&x), (0x1004, vec![]));
    let CycleStep::Exchange(c, x) = c.answered(ok(array(&[1, 2, 3]))) else {
        panic!("an operation is due")
    };
    assert_eq!(command_of(&x), (0x1003, vec![]));
    let CycleStep::Over(s, r) = c.answered(ok(vec![])) else {
        panic!("the cycle is over")
    };
    assert_eq!(r, Ok(3));
    assert!(!s.needs_close());
}

#[test]
fn a_cycle_that_fails_keeps_the_session_to_be_closed() {
    let CycleStep::Exchange(c, _) = Cycle::start(session()) else {
        panic!("an operation is due")
    };
    let CycleStep::Exchange(c, _) = c.answered(ok(vec![])) else {
        panic!("an operation is due")
    };
    let lost = Err(SessionError::Usb { step: "GetStorageIDs", source: timed_out() });
    let CycleStep::Over(s, r) = c.answered(lost) else {
        panic!("the cycle is over")
    };
    assert_eq!(
        r,
        Err("GetStorageIDs: the transfer on endpoint 0x81 gave: timed out".to_string())
    );
    assert!(s.needs_close());
}

#[test]
fn the_times_of_cycles_give_the_slowest_and_the_mean() {
    let t = Times::new()
        .cycle(Duration::from_millis(40))
        .cycle(Duration::from_millis(70))
        .cycle(Duration::from_nanos(10_500_000));
    assert_eq!(t.slowest(), 70);
    assert_eq!(t.mean(3), 40);
    assert_eq!(Times::new().mean(0), 0);
}

#[test]
fn a_reopen_test_stops_at_the_first_cycle_that_fails() {
    let time = Duration::from_millis(40);
    let ReopenStep::Cycle(t) = Reopen::start(3) else {
        panic!("a cycle is due")
    };
    assert_eq!(t.number(), 1);
    let ReopenStep::Cycle(t) = t.cycled(true, time) else {
        panic!("a cycle is due")
    };
    assert_eq!(t.number(), 2);
    let ReopenStep::Failed(n, m) = t.cycled(false, time) else {
        panic!("the test is over")
    };
    assert_eq!((n, m.as_str()), (2, "the reopen cycle failed at cycle 2"));
}

#[test]
fn a_reopen_test_does_every_cycle() {
    let ReopenStep::Cycle(t) = Reopen::start(2) else {
        panic!("a cycle is due")
    };
    let ReopenStep::Cycle(t) = t.cycled(true, Duration::from_millis(40)) else {
        panic!("a cycle is due")
    };
    let ReopenStep::Done(times) = t.cycled(true, Duration::from_millis(20)) else {
        panic!("the test is over")
    };
    assert_eq!((times.slowest(), times.mean(2)), (40, 30));

    let ReopenStep::Done(none) = Reopen::start(0) else {
        panic!("there is no cycle to do")
    };
    assert_eq!((none.slowest(), none.mean(0)), (0, 0));
}

#[test]
fn an_operation_says_its_name() {
    assert_eq!(session().operation("GetObject", 0x1009, &[4]).step(), "GetObject");
}
