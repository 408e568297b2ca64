//! Finding the devices that offer an MTP interface.

use bsdroid::usb::device::DeviceHandle;
use bsdroid::usb::discover::{
    android_without_mtp, any, find, inspect, inspected, list, parse_node, search, DeviceRead, Found,
    SearchStep,
};

#[test]
fn a_node_name_reads_in_both_forms() {
    assert_eq!(parse_node("ugen0.11"), Some((0, 11)));
    assert_eq!(parse_node("/dev/ugen0.11"), Some((0, 11)));
    assert_eq!(parse_node("ugen1.3"), Some((1, 3)));
}

#[test]
fn a_name_that_is_not_a_node_gives_nothing() {
    assert_eq!(parse_node("allow_other"), None);
    assert_eq!(parse_node("/mnt/phone"), None);
    assert_eq!(parse_node("ugen0"), None);
    assert_eq!(parse_node("ugen"), None);
    assert_eq!(parse_node(""), None);
    assert_eq!(parse_node("ugen0.999"), None, "an address is one byte");
}

fn handle(bus: u8, address: u8) -> DeviceHandle {
    DeviceHandle { bus, address, vendor_id: 0x04e8, product_id: 0x6860, speed_value: 3 }
}

/// One interface with two bulk endpoints.
fn config(class: u8, subclass: u8, protocol: u8, string: u8) -> Vec<u8> {
    let mut b = vec![0x09, 0x02, 32, 0x00, 0x01, 0x01, 0x00, 0x80, 0x32];
    b.extend_from_slice(&[0x09, 0x04, 0x00, 0x00, 0x02, class, subclass, protocol, string]);
    b.extend_from_slice(&[0x07, 0x05, 0x81, 0x02, 0x00, 0x02, 0x00]);
    b.extend_from_slice(&[0x07, 0x05, 0x01, 0x02, 0x00, 0x02, 0x00]);
    b
}

fn found(bus: u8, address: u8) -> Found {
    inspect(handle(bus, address), &config(6, 1, 1, 0)).unwrap().finish(&[]).unwrap()
}

#[test]
fn a_found_device_has_a_node_and_a_name() {
    let f = found(0, 11);
    assert_eq!(f.node(), "ugen0.11");
    assert_eq!(parse_node(&f.node()), Some((0, 11)));
    assert_eq!((f.vendor_id, f.product_id), (0x04e8, 0x6860));
    let name = |a: Option<&str>, b: Option<&str>| {
        f.name(a.map(|s| s.to_string()), b.map(|s| s.to_string()))
    };
    assert_eq!(name(Some("SAMSUNG"), Some("SAMSUNG_Android")), "SAMSUNG SAMSUNG_Android");
    assert_eq!(name(None, Some("Moto")), "Moto");
    assert_eq!(name(Some("Moto"), None), "Moto");
    assert_eq!(name(None, None), "");
}

#[test]
fn a_vendor_class_needs_the_name_of_the_interface() {
    let i = inspect(handle(0, 2), &config(0xff, 0xff, 0, 5)).unwrap();
    assert_eq!(i.wanted, vec![5]);
    let f = i.clone().finish(&[(5, Some("MTP".to_string()))]).unwrap();
    assert_eq!((f.iface.bulk_in, f.iface.bulk_out), (0x81, 0x01));
    assert!(i.clone().finish(&[(5, Some("other".to_string()))]).is_none());
    assert!(i.clone().finish(&[(5, None)]).is_none());
    assert!(i.finish(&[]).is_none());
    assert!(inspect(handle(0, 2), &[1, 2, 3]).is_none());
}

#[test]
fn a_search_takes_the_named_device_and_no_other() {
    let all = [handle(0, 2), handle(0, 11), handle(1, 11)];
    assert_eq!(find(&all, None, 0), Some(0));
    assert_eq!(find(&all, None, 1), Some(1));
    assert_eq!(find(&all, Some((1, 11)), 0), Some(2));
    assert_eq!(find(&all, Some((1, 11)), 3), None);
    assert_eq!(find(&all, Some((3, 3)), 0), None);
}

#[test]
fn a_listing_keeps_the_devices_that_offer_mtp() {
    let all = vec![None, Some(found(0, 2)), None, Some(found(0, 3))];
    assert!(any(&all));
    let nodes: Vec<String> = list(all).iter().map(|f| f.node()).collect();
    assert_eq!(nodes, vec!["ugen0.2", "ugen0.3"]);
    assert!(!any(&[None, None]));
    assert!(list(vec![None]).is_empty());
}

#[test]
fn adb_alone_is_the_sign_of_the_wrong_mode() {
    let read = |address, config| DeviceRead { device: handle(0, address), config, names: vec![] };
    let devices = [
        read(2, config(6, 1, 1, 0)),
        read(3, config(0xff, 0x42, 1, 0)),
        read(4, vec![]),
        read(5, config(0xff, 0xff, 0, 5)),
    ];
    assert_eq!(android_without_mtp(&devices), vec![(0, 3, 0x04e8, 0x6860)]);
}

/// A vendor interface with a name, and an adb interface.
fn config_with_adb() -> Vec<u8> {
    let mut b = config(0xff, 0xff, 0, 5);
    b[2] = 55;
    b[4] = 2;
    b.extend_from_slice(&[0x09, 0x04, 0x01, 0x00, 0x02, 0xff, 0x42, 0x01, 0x00]);
    b.extend_from_slice(&[0x07, 0x05, 0x82, 0x02, 0x00, 0x02, 0x00]);
    b.extend_from_slice(&[0x07, 0x05, 0x02, 0x02, 0x00, 0x02, 0x00]);
    b
}

#[test]
fn a_telephone_that_is_mtp_by_name_is_in_file_transfer_mode() {
    let read = |address, name: Option<&str>| DeviceRead {
        device: handle(0, address),
        config: config_with_adb(),
        names: vec![(5, name.map(|s| s.to_string()))],
    };
    let devices = [
        read(2, Some("MTP")),
        read(3, Some("Mass Storage")),
        read(4, None),
        DeviceRead { device: handle(0, 5), config: config_with_adb(), names: vec![] },
    ];
    assert_eq!(
        android_without_mtp(&devices),
        vec![(0, 3, 0x04e8, 0x6860), (0, 4, 0x04e8, 0x6860), (0, 5, 0x04e8, 0x6860)]
    );

    // The same names decide what a search takes.
    for d in &devices {
        let i = inspect(d.device, &d.config).unwrap();
        assert_eq!(i.finish(&d.names).is_some(), d.device.address == 2);
    }
}

#[test]
fn a_search_stops_at_the_first_device_that_is_accepted() {
    let all = [handle(0, 2), handle(0, 11), handle(1, 11)];
    assert_eq!(search(&all, None), SearchStep::Inspect(0));
    assert_eq!(inspected(&all, None, 0, false), SearchStep::Inspect(1));
    assert_eq!(inspected(&all, None, 1, true), SearchStep::Found(1));
    assert_eq!(inspected(&all, None, 2, false), SearchStep::Absent);

    assert_eq!(search(&all, Some((1, 11))), SearchStep::Inspect(2));
    assert_eq!(inspected(&all, Some((1, 11)), 2, true), SearchStep::Found(2));
    assert_eq!(inspected(&all, Some((0, 11)), 1, false), SearchStep::Absent);
    assert_eq!(search(&all, Some((3, 3))), SearchStep::Absent);
    assert_eq!(search(&[], None), SearchStep::Absent);
}
