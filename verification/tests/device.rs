//! Transfers, requests and their deadlines.

use bsdroid::time::Duration;
use bsdroid::usb::descriptor::MtpInterface;
use bsdroid::usb::device::{
    timeout_millis, Backend, BulkChannel, DeviceHandle, LinkSpeed, OpenDevice, TransferStatus, UsbError,
    MAX_DEVICES,
};

#[test]
fn transfer_status_reads_every_defined_value() {
    assert_eq!(TransferStatus::from_wire(0), TransferStatus::Completed);
    assert_eq!(TransferStatus::from_wire(3), TransferStatus::Error);
    assert_eq!(TransferStatus::from_wire(4), TransferStatus::TimedOut);
    assert_eq!(TransferStatus::from_wire(5), TransferStatus::Cancelled);
    assert_eq!(TransferStatus::from_wire(6), TransferStatus::Stall);
    assert_eq!(TransferStatus::from_wire(7), TransferStatus::NoDevice);
    assert_eq!(TransferStatus::from_wire(8), TransferStatus::Overflow);
}

#[test]
fn an_unknown_status_keeps_the_value() {
    assert_eq!(TransferStatus::from_wire(200), TransferStatus::Other(200));
}

#[test]
fn only_completed_is_ok() {
    assert!(TransferStatus::Completed.is_ok());
    for bad in [
        TransferStatus::Error,
        TransferStatus::TimedOut,
        TransferStatus::Stall,
        TransferStatus::NoDevice,
    ] {
        assert!(!bad.is_ok(), "{} must not count as success", bad.message());
    }
}

/// A timeout of 0 means "wait with no end" in `libusb20`, and
/// every transfer has a timeout. The code must therefore not pass 0.
#[test]
fn a_zero_timeout_becomes_one_millisecond() {
    assert_eq!(timeout_millis(Duration::from_millis(0)).unwrap(), 1);
    assert_eq!(timeout_millis(Duration::from_nanos(1)).unwrap(), 1);
}

#[test]
fn a_normal_timeout_converts_to_milliseconds() {
    assert_eq!(timeout_millis(Duration::from_secs(5)).unwrap(), 5000);
    assert_eq!(timeout_millis(Duration::from_millis(250)).unwrap(), 250);
}

#[test]
fn a_timeout_that_is_too_large_is_an_error() {
    let huge = Duration::from_secs(u64::from(u32::MAX));
    assert!(matches!(
        timeout_millis(huge),
        Err(UsbError::TimeoutTooLarge { .. })
    ));
}

#[test]
fn a_listing_of_devices_ends() {
    let one = DeviceHandle { bus: 1, address: 2, vendor_id: 3, product_id: 4, speed_value: 5 };
    let mut b = Backend::new(true).unwrap();
    let mut asked = 0;
    while b.add_next(Some(one)) {
        asked += 1;
    }
    assert_eq!(asked + 1, MAX_DEVICES);
    assert_eq!(b.devices().len(), MAX_DEVICES);
    assert!(!b.add_next(Some(one)));
    assert_eq!(b.devices().len(), MAX_DEVICES);
    let mut b = Backend::new(true).unwrap();
    assert!(b.add_next(Some(one)));
    assert!(!b.add_next(None));
    assert_eq!(b.devices(), &[one]);
    assert_eq!(Backend::new(false).unwrap_err(), UsbError::NoBackend);
}

#[test]
fn a_device_opens_or_says_why_not() {
    let one = DeviceHandle { bus: 1, address: 2, vendor_id: 3, product_id: 4, speed_value: 3 };
    assert_eq!((one.bus(), one.address(), one.ids()), (1, 2, (3, 4)));
    assert_eq!(one.open(-1), Err(UsbError::Open(-1)));
    let open = one.open(0).unwrap();
    assert_eq!(open.speed(), one.speed());
    assert_eq!(open.speed(), LinkSpeed::High);
}

#[test]
fn a_control_request_keeps_what_came() {
    let d = OpenDevice { speed_value: 3 };
    let r = d.config_descriptor_raw(Duration::from_secs(1)).unwrap();
    assert_eq!((r.request_type, r.request, r.value, r.index), (0x80, 6, 0x0200, 0));
    assert_eq!((r.length, r.timeout_ms), (4096, 1000));
    assert_eq!(d.control_answer(0, vec![1, 2, 3, 4], 2), Ok(vec![1, 2]));
    assert_eq!(d.control_answer(-5, vec![1], 1), Err(UsbError::Control(-5)));
    let reset = d.ptp_device_reset(3, Duration::from_secs(1)).unwrap();
    assert_eq!((reset.request_type, reset.request, reset.index), (0x21, 0x66, 3));
    assert_eq!(reset.length, 0);
    assert_eq!(d.detach_kernel_driver(1, 0), Ok(()));
    assert_eq!(
        d.detach_kernel_driver(1, -2),
        Err(UsbError::Detach { interface: 1, code: -2 })
    );
    assert_eq!(d.reset(-99), Err(UsbError::Reset(-99)));
}

#[test]
fn a_string_ends_at_its_first_zero() {
    let d = OpenDevice { speed_value: 3 };
    assert!(d.has_string(1) && !d.has_string(0));
    assert_eq!(d.string_descriptor(1, 0, b"MTP\0rest"), Some("MTP".to_string()));
    assert_eq!(
        d.string_descriptor(1, 0, "T\u{e9}l\u{1f4f1}\0".as_bytes()),
        Some("T\u{e9}l\u{1f4f1}".to_string())
    );
    assert_eq!(d.string_descriptor(1, 0, &[0xff, 0xfe, 0]), None);
    assert_eq!(d.string_descriptor(1, -1, b"MTP\0"), None);
    assert_eq!(d.string_descriptor(0, 0, b"MTP\0"), None);
}

#[test]
fn a_channel_judges_its_transfers() {
    let c = BulkChannel { endpoint: 0x01 };
    let t = c.write(&[0; 12], Duration::from_millis(0)).unwrap();
    assert_eq!((t.endpoint, t.length, t.timeout_ms), (0x01, 12, 1));
    assert_eq!(c.write_answer(12, 0, 12), Ok(12));
    assert_eq!(c.write_answer(12, 0, 3), Err(UsbError::ShortWrite { want: 12, got: 3 }));
    assert_eq!(
        c.write_answer(12, 6, 0),
        Err(UsbError::Transfer { endpoint: 0x01, status: TransferStatus::Stall })
    );
    assert_eq!(c.read_answer(0, 5), Ok(5));
    assert_eq!(
        c.read_answer(4, 0),
        Err(UsbError::Transfer { endpoint: 0x01, status: TransferStatus::TimedOut })
    );
}

#[test]
fn a_device_becomes_two_channels() {
    let d = OpenDevice { speed_value: 3 };
    let iface = MtpInterface {
        interface_number: 0,
        alternate_setting: 0,
        class: 6,
        subclass: 1,
        protocol: 1,
        bulk_in: 0x81,
        bulk_out: 0x01,
        interrupt_in: None,
        max_packet_size: 512,
    };
    let m = d.into_mtp(&iface, Some(0), Some(0)).unwrap();
    assert_eq!((m.channels().write.endpoint(), m.channels().read.endpoint()), (0x01, 0x81));
    assert_eq!(
        d.into_mtp(&iface, Some(0), Some(-3)).unwrap_err(),
        UsbError::EndpointOpen { endpoint: 0x81, code: -3 }
    );
}

#[test]
fn every_speed_has_a_rate() {
    assert_eq!(LinkSpeed::High.bits_per_second(), Some(480_000_000));
    assert_eq!(LinkSpeed::Super.bits_per_second(), Some(5_000_000_000));
    assert_eq!(LinkSpeed::Unknown.bits_per_second(), None);
    assert!(LinkSpeed::High.practical_bytes_per_second().unwrap() < 480_000_000 / 8);
    assert_eq!(LinkSpeed::from_wire(99), LinkSpeed::Other(99));
}
