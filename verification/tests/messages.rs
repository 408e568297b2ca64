//! What a person reads about a fault.

use bsdroid::mtpfs::error::Error;
use bsdroid::probe::{
    absence, command, read_buffer_size, response_name, step, storage_ids_from, Command,
};
use bsdroid::ptp::container::ContainerType;
use bsdroid::ptp::error::{ParseError, PayloadTooLarge};
use bsdroid::session::error::SessionError;
use bsdroid::session::outcome::Outcome;
use bsdroid::time::Duration;
use bsdroid::usb::descriptor::DescriptorError;
use bsdroid::usb::device::{LinkSpeed, TransferStatus, UsbError};

#[test]
fn a_parse_fault_names_the_field() {
    let text = |e: ParseError| e.message();
    assert_eq!(
        text(ParseError::ShortHeader { got: 3 }),
        "the buffer holds 3 bytes, and a container header needs 12"
    );
    assert_eq!(
        text(ParseError::LengthMismatch { declared: 255, available: 20 }),
        "the container declares 255 bytes, and the buffer holds 20"
    );
    assert_eq!(
        text(ParseError::UnknownContainerType(9)),
        "the container type 9 is not a defined type"
    );
    assert_eq!(
        text(ParseError::Truncated { field: "model", need: 4, got: 2 }),
        "the field model needs 4 bytes, and 2 bytes remain"
    );
    assert_eq!(
        text(ParseError::BadString { field: "model" }),
        "the field model does not hold valid UTF-16"
    );
    assert_eq!(
        PayloadTooLarge { len: 4_294_967_295 }.message(),
        "the payload holds 4294967295 bytes, and one container holds 4294967283 at most"
    );
}

#[test]
fn a_usb_fault_names_its_cause() {
    assert_eq!(UsbError::NoBackend.message(), "the library gives no USB backend");
    assert_eq!(
        UsbError::Open(-1).message(),
        "cannot open the device, code -1. Check that you belong to the operator group"
    );
    assert_eq!(UsbError::Control(-7).message(), "the control request failed, code -7");
    assert_eq!(
        UsbError::EndpointOpen { endpoint: 1, code: -3 }.message(),
        "cannot open endpoint 0x01, code -3"
    );
    assert_eq!(
        UsbError::Transfer { endpoint: 0x81, status: TransferStatus::Other(200) }.message(),
        format!("the transfer on endpoint 0x81 gave: {}", TransferStatus::Other(200).message())
    );
    assert_eq!(
        UsbError::ShortWrite { want: 12, got: 3 }.message(),
        "the host sent 3 bytes, and the caller asked for 12"
    );
    assert_eq!(
        UsbError::Detach { interface: 2, code: -1 }.message(),
        "the kernel will not release interface 2, code -1"
    );
    assert_eq!(
        UsbError::Reset(-99).message(),
        "cannot reset the device, code -99. A reset needs root on FreeBSD"
    );
    assert_eq!(
        UsbError::from(DescriptorError::NoMtpInterface).message(),
        format!(
            "the descriptor does not parse: {}",
            DescriptorError::NoMtpInterface.message()
        )
    );
    assert_eq!(
        UsbError::TimeoutTooLarge { millis: 5_000_000_000 }.message(),
        "the timeout of 5000000000 ms is larger than the library accepts"
    );
}

#[test]
fn a_link_has_a_speed() {
    assert_eq!(LinkSpeed::from_wire(3).message(), "high, USB 2.0 (480 Mbit each second)");
    assert_eq!(LinkSpeed::Unknown.message(), "unknown");
    assert_eq!(
        LinkSpeed::Other(77).message(),
        "a speed this code does not name (77)"
    );
}

#[test]
fn a_session_fault_names_its_step() {
    let all = [
        SessionError::Usb { step: "A", source: UsbError::NoBackend },
        SessionError::Parse { step: "A", source: ParseError::UnknownContainerType(0) },
        SessionError::Unexpected {
            step: "A",
            expected: ContainerType::Response,
            got: ContainerType::Event,
        },
        SessionError::TooLarge { step: "A", declared: 9, limit: 8 },
        SessionError::Incomplete { step: "A", want: 9, got: 8 },
        SessionError::Write { step: "A", source: "no room".to_string() },
        SessionError::ShortRead { step: "A", want: 9, got: 8, source: None },
        SessionError::Build { step: "A", source: PayloadTooLarge { len: 7 } },
    ];
    for e in all {
        assert_eq!(e.step(), "A");
        assert!(e.message().starts_with("A: "), "{}", e.message());
    }
    assert_eq!(
        SessionError::TooLarge { step: "A", declared: 9, limit: 8 }.message(),
        "A: the device declared 9 bytes, and the limit is 8"
    );
    assert_eq!(
        SessionError::Incomplete { step: "A", want: 9, got: 8 }.message(),
        "A: the device sent 8 bytes of the 9 it declared"
    );
}

#[test]
fn a_filesystem_fault_says_what_to_do() {
    assert!(Error::NoDevice.message().starts_with("no device gives an MTP interface."));
    assert!(Error::NoStorage.message().starts_with("the device reports no storage."));
    assert!(Error::NoPartialRead.message().starts_with("the device cannot read part of a file"));
    assert_eq!(Error::from(UsbError::NoBackend), Error::Usb(UsbError::NoBackend));
    assert_eq!(
        Error::from(ParseError::UnknownContainerType(0)).message(),
        "the container type 0 is not a defined type"
    );
    assert_eq!(
        Error::Device { step: "OpenSession", code: 0x201e }.message(),
        "OpenSession: the device answered with the code 0x201e"
    );
}

#[test]
fn a_response_code_has_a_name() {
    assert_eq!(response_name(0x2001), "OK");
    assert_eq!(response_name(0x200d), "Store full");
    assert_eq!(response_name(0x201f), "Transaction cancelled");
    assert_eq!(response_name(0x2fff), "unknown");
}

#[test]
fn adb_tells_a_telephone_in_another_mode_from_no_telephone() {
    assert!(absence(&[(0, 3, 0x04e8, 0x6864)]).starts_with("an Android device is connected"));
    assert_eq!(
        absence(&[]),
        "no device gives an MTP interface. Connect the phone, unlock the phone, and choose File \
         transfer on the phone."
    );
}

#[test]
fn a_word_is_a_command() {
    let run = |w: &[&str]| command(&w.iter().map(|s| s.to_string()).collect());
    assert_eq!(run(&[]), Command::Probe);
    assert_eq!(run(&["probe"]), Command::Probe);
    assert_eq!(run(&["reopen"]), Command::Reopen(20));
    assert_eq!(run(&["reopen", "5"]), Command::Reopen(5));
    assert_eq!(run(&["reopen", "+5"]), Command::Reopen(5));
    assert_eq!(run(&["reopen", "-5"]), Command::Reopen(20));
    assert_eq!(run(&["reopen", "4294967295"]), Command::Reopen(u32::MAX));
    assert_eq!(run(&["reopen", "4294967296"]), Command::Reopen(20));
    assert_eq!(run(&["-h"]), Command::Help);
    assert_eq!(run(&["walk"]), Command::Unknown("walk".to_string()));
}

#[test]
fn a_read_buffer_comes_from_its_setting() {
    assert_eq!(read_buffer_size(None), 65536);
    assert_eq!(read_buffer_size(Some("512")), 512);
    assert_eq!(read_buffer_size(Some("511")), 65536);
    assert_eq!(read_buffer_size(Some("many")), 65536);
}

#[test]
fn storage_identifiers_stand_behind_their_count() {
    assert_eq!(storage_ids_from(&[1, 0, 0, 0, 1, 0, 1, 0]), vec![0x0001_0001]);
    assert_eq!(storage_ids_from(&[9, 0, 0, 0, 1, 0, 1, 0, 7]), vec![0x0001_0001]);
    assert_eq!(storage_ids_from(&[]), Vec::<u32>::new());
}

#[test]
fn a_refused_step_is_a_fault() {
    let out = |code| {
        Ok(Outcome {
            response_code: code,
            data: vec![1],
            response_params: vec![],
            elapsed: Duration::from_secs(1),
            reads: 1,
        })
    };
    assert_eq!(step("GetStorageIDs", out(0x2001)).unwrap().data, vec![1]);
    assert_eq!(
        step("GetStorageIDs", out(0x2003)).unwrap_err(),
        "GetStorageIDs gave 0x2003 Session not open"
    );
    assert_eq!(
        step("A", Err(SessionError::Incomplete { step: "A", want: 2, got: 1 })).unwrap_err(),
        "A: the device sent 1 bytes of the 2 it declared"
    );
}
