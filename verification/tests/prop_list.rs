//! Many properties of many objects in one answer.

use bsdroid::ptp::error::ParseError;
use bsdroid::ptp::prop_list::{fold_prop_list, parse_object_prop_list};
use bsdroid::ptp::{datatype, prop};

/// Builds one element of an `ObjectPropList` dataset.
fn element(handle: u32, code: u16, kind: u16, value: &[u8]) -> Vec<u8> {
    let mut v = Vec::new();
    v.extend_from_slice(&handle.to_le_bytes());
    v.extend_from_slice(&code.to_le_bytes());
    v.extend_from_slice(&kind.to_le_bytes());
    v.extend_from_slice(value);
    v
}

/// Builds a PTP string: a count of characters, and then UTF-16.
fn ptp_string(s: &str) -> Vec<u8> {
    let mut units: Vec<u16> = s.encode_utf16().collect();
    units.push(0);
    let mut v = vec![units.len() as u8];
    for u in units {
        v.extend_from_slice(&u.to_le_bytes());
    }
    v
}

fn dataset(elements: &[Vec<u8>]) -> Vec<u8> {
    let mut v = (elements.len() as u32).to_le_bytes().to_vec();
    for e in elements {
        v.extend_from_slice(e);
    }
    v
}

#[test]
fn an_empty_list_gives_no_entry() {
    let data = 0u32.to_le_bytes().to_vec();
    assert_eq!(parse_object_prop_list(&data).unwrap(), Vec::new());
}

#[test]
fn a_file_gives_a_name_and_a_size() {
    let data = dataset(&[
        element(
            7,
            prop::OBJECT_FILE_NAME,
            datatype::STR,
            &ptp_string("a.jpg"),
        ),
        element(
            7,
            prop::OBJECT_SIZE,
            datatype::UINT64,
            &1_048_576u64.to_le_bytes(),
        ),
        element(
            7,
            prop::OBJECT_FORMAT,
            datatype::UINT16,
            &bsdroid::ptp::format::EXIF_JPEG.to_le_bytes(),
        ),
        element(
            7,
            prop::PARENT_OBJECT,
            datatype::UINT32,
            &3u32.to_le_bytes(),
        ),
    ]);

    let recs = fold_prop_list(&parse_object_prop_list(&data).unwrap());
    assert_eq!(recs.len(), 1);
    assert_eq!(recs[0].handle, 7);
    assert_eq!(recs[0].name, "a.jpg");
    assert_eq!(recs[0].size, 1_048_576);
    assert_eq!(recs[0].parent, 3);
    assert!(!recs[0].is_folder());
}

#[test]
fn the_association_format_marks_a_folder() {
    let data = dataset(&[
        element(
            9,
            prop::OBJECT_FILE_NAME,
            datatype::STR,
            &ptp_string("DCIM"),
        ),
        element(
            9,
            prop::OBJECT_FORMAT,
            datatype::UINT16,
            &bsdroid::ptp::format::ASSOCIATION.to_le_bytes(),
        ),
    ]);

    let recs = fold_prop_list(&parse_object_prop_list(&data).unwrap());
    assert!(recs[0].is_folder());
    assert_eq!(recs[0].name, "DCIM");
}

#[test]
fn the_order_of_the_device_stays() {
    let data = dataset(&[
        element(30, prop::OBJECT_FILE_NAME, datatype::STR, &ptp_string("c")),
        element(10, prop::OBJECT_FILE_NAME, datatype::STR, &ptp_string("a")),
        element(20, prop::OBJECT_FILE_NAME, datatype::STR, &ptp_string("b")),
    ]);

    let recs = fold_prop_list(&parse_object_prop_list(&data).unwrap());
    let names: Vec<&str> = recs.iter().map(|r| r.name.as_str()).collect();
    assert_eq!(names, vec!["c", "a", "b"]);
}

#[test]
fn a_property_the_project_does_not_use_does_not_stop_the_parse() {
    // DateModified is a string, and the project reads no date.
    let data = dataset(&[
        element(5, 0xdc09, datatype::STR, &ptp_string("20260916T101500")),
        element(
            5,
            prop::OBJECT_FILE_NAME,
            datatype::STR,
            &ptp_string("b.mp4"),
        ),
    ]);

    let recs = fold_prop_list(&parse_object_prop_list(&data).unwrap());
    assert_eq!(recs.len(), 1);
    assert_eq!(recs[0].name, "b.mp4");
}

#[test]
fn a_value_of_128_bits_does_not_stop_the_parse() {
    // Devices send PersistentUniqueObjectIdentifier, which is 128 bits.
    let data = dataset(&[
        element(5, 0xdc41, datatype::UINT128, &[0u8; 16]),
        element(
            5,
            prop::OBJECT_FILE_NAME,
            datatype::STR,
            &ptp_string("c.png"),
        ),
    ]);

    let recs = fold_prop_list(&parse_object_prop_list(&data).unwrap());
    assert_eq!(recs[0].name, "c.png");
}

#[test]
fn a_data_type_the_project_cannot_read_gives_an_error() {
    // 0x4006 is an array of uint32. A parser cannot step over the value
    // without the count, so the caller must use the older way.
    let data = dataset(&[element(5, 0xdc07, 0x4006, &[0u8; 8])]);
    assert!(matches!(
        parse_object_prop_list(&data),
        Err(ParseError::Unsupported { .. })
    ));
}

#[test]
fn a_truncated_answer_gives_an_error() {
    let mut data = dataset(&[element(
        7,
        prop::OBJECT_SIZE,
        datatype::UINT64,
        &1u64.to_le_bytes(),
    )]);
    data.truncate(data.len() - 3);
    assert!(parse_object_prop_list(&data).is_err());
}

#[test]
fn a_count_that_is_too_large_gives_an_error_and_not_a_large_allocation() {
    // A device that gives a wrong count must not make the host reserve a
    // very large block of memory.
    let mut data = 0xffff_ffffu32.to_le_bytes().to_vec();
    data.extend_from_slice(&element(
        1,
        prop::OBJECT_SIZE,
        datatype::UINT32,
        &1u32.to_le_bytes(),
    ));
    assert!(parse_object_prop_list(&data).is_err());
}

#[test]
fn a_size_of_more_than_4_gb_survives() {
    let data = dataset(&[element(
        7,
        prop::OBJECT_SIZE,
        datatype::UINT64,
        &5_000_000_000u64.to_le_bytes(),
    )]);
    let recs = fold_prop_list(&parse_object_prop_list(&data).unwrap());
    assert_eq!(recs[0].size, 5_000_000_000);
}
