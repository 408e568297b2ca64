//! The descriptors of a device.

use bsdroid::usb::descriptor::{
    ConfigDescriptor, DescriptorError, DeviceCapabilities, Endpoint, MtpInterface, TRANSFER_BULK,
};

/// A minimal configuration with one MTP interface and two bulk endpoints.
fn minimal_mtp() -> Vec<u8> {
    let mut b = vec![0x09, 0x02, 0x00, 0x00, 0x01, 0x01, 0x00, 0x80, 0x32];
    b.extend_from_slice(&[0x09, 0x04, 0x00, 0x00, 0x02, 0x06, 0x01, 0x01, 0x00]);
    b.extend_from_slice(&[0x07, 0x05, 0x81, 0x02, 0x00, 0x02, 0x00]);
    b.extend_from_slice(&[0x07, 0x05, 0x01, 0x02, 0x00, 0x02, 0x00]);
    let total = b.len() as u16;
    b[2..4].copy_from_slice(&total.to_le_bytes());
    b
}

#[test]
fn a_minimal_configuration_gives_an_mtp_interface() {
    let cfg = ConfigDescriptor::parse(&minimal_mtp()).unwrap();
    let mtp = MtpInterface::find(&cfg).unwrap();
    assert_eq!(mtp.bulk_in, 0x81);
    assert_eq!(mtp.bulk_out, 0x01);
    assert_eq!(mtp.interrupt_in, None, "the device gives no event endpoint");
}

#[test]
fn an_mtp_interface_with_one_bulk_endpoint_is_incomplete() {
    let mut b = minimal_mtp();
    b.truncate(b.len() - 7); // Remove the endpoint that sends to the device.
    let total = b.len() as u16;
    b[2..4].copy_from_slice(&total.to_le_bytes());

    let cfg = ConfigDescriptor::parse(&b).unwrap();
    assert_eq!(
        MtpInterface::find(&cfg),
        Err(DescriptorError::IncompleteMtpEndpoints {
            has_in: true,
            has_out: false
        })
    );
}

#[test]
fn a_header_length_of_zero_is_an_error() {
    let mut b = minimal_mtp();
    b[0] = 0x00;
    assert_eq!(
        ConfigDescriptor::parse(&b),
        Err(DescriptorError::ZeroLength { at: 0 })
    );
}

#[test]
fn a_total_length_larger_than_the_buffer_reads_only_the_buffer() {
    // A device that declares more than it sends must not make the host
    // read past the buffer.
    let mut b = minimal_mtp();
    b[2..4].copy_from_slice(&9999u16.to_le_bytes());
    let cfg = ConfigDescriptor::parse(&b).expect("the parser stops at the buffer");
    assert_eq!(cfg.interfaces.len(), 1);
}

#[test]
fn the_direction_bit_decides_the_direction() {
    let ep_in = Endpoint {
        address: 0x81,
        transfer_type: TRANSFER_BULK,
        max_packet_size: 512,
    };
    let ep_out = Endpoint {
        address: 0x01,
        transfer_type: TRANSFER_BULK,
        max_packet_size: 512,
    };
    assert!(ep_in.is_in());
    assert!(!ep_out.is_in());
    assert!(ep_in.is_bulk() && ep_out.is_bulk());
}

#[test]
fn a_bos_descriptor_says_what_a_device_can_do() {
    // A BOS header, and the capability of a super speed device.
    let mut b = vec![0x05, 0x0f, 0x0f, 0x00, 0x01];
    b.extend_from_slice(&[0x0a, 0x10, 0x03, 0x00, 0x0f, 0x00, 0x01, 0x0a, 0xff, 0x01]);
    let c = DeviceCapabilities::parse(&b).unwrap();
    assert!(c.super_speed && !c.super_speed_plus);
    assert_eq!(c.speeds_supported, Some(0x000f));
    assert!(c.supports_faster_than_high());

    let plain = DeviceCapabilities::parse(&[0x05, 0x0f, 0x05, 0x00, 0x00]).unwrap();
    assert!(!plain.supports_faster_than_high());
    assert_eq!(plain.speeds_supported, None);
    assert!(DeviceCapabilities::parse(&[0x05]).is_err());
}

#[test]
fn a_class_and_a_name_both_choose_an_interface() {
    let mut b = minimal_mtp();
    b[9 + 5] = 0xff;
    b[9 + 6] = 0xff;
    b[9 + 7] = 0x00;
    b[9 + 8] = 0x04;
    let cfg = ConfigDescriptor::parse(&b).unwrap();
    assert!(cfg.interfaces[0].is_vendor_mtp_candidate());
    assert_eq!(MtpInterface::find(&cfg), Err(DescriptorError::NoMtpInterface));
    let named = MtpInterface::find_with_names(&cfg, &[(4, Some("MTP".to_string()))]).unwrap();
    assert_eq!(named.bulk_in, 0x81);
    assert_eq!(
        MtpInterface::find_with_names(&cfg, &[(4, Some("x".to_string()))]),
        Err(DescriptorError::NoMtpInterface)
    );
}

/// The audio class gives endpoint descriptors of 9 bytes. A parser that steps over 7 bytes reads every
/// descriptor behind them at the wrong place.
#[test]
fn an_endpoint_of_nine_bytes_does_not_move_what_follows() {
    let mut b = vec![0x09, 0x02, 0x00, 0x00, 0x02, 0x01, 0x00, 0x80, 0x32];
    b.extend_from_slice(&[0x09, 0x04, 0x00, 0x00, 0x02, 0x01, 0x03, 0x00, 0x00]);
    b.extend_from_slice(&[0x09, 0x05, 0x01, 0x02, 0x00, 0x02, 0x00, 0x00, 0x00]);
    b.extend_from_slice(&[0x09, 0x05, 0x81, 0x02, 0x00, 0x02, 0x00, 0x00, 0x00]);
    b.extend_from_slice(&[0x09, 0x04, 0x01, 0x00, 0x02, 0xff, 0x42, 0x01, 0x00]);
    b.extend_from_slice(&[0x07, 0x05, 0x02, 0x02, 0x00, 0x02, 0x00]);
    b.extend_from_slice(&[0x07, 0x05, 0x82, 0x02, 0x00, 0x02, 0x00]);
    let total = b.len() as u16;
    b[2..4].copy_from_slice(&total.to_le_bytes());

    let cfg = ConfigDescriptor::parse(&b).unwrap();
    assert_eq!(cfg.interfaces.len(), 2);
    let addresses = |i: usize| -> Vec<u8> {
        cfg.interfaces[i].endpoints.iter().map(|e| e.address).collect()
    };
    assert_eq!(addresses(0), vec![0x01, 0x81]);
    assert_eq!(addresses(1), vec![0x02, 0x82]);
    assert!(cfg.interfaces[1].is_adb());

    // The first interface owns the endpoints that often carry MTP, and its class is another one.
    assert_eq!(MtpInterface::find(&cfg), Err(DescriptorError::NoMtpInterface));
}
