use speedy::Writable;
use typed_table::codec::{to_signed, to_unsigned};
use typed_table::error::TableError;
use typed_table::person_list_metadata1::PersonListMetadata1;
use typed_table::record::{ByteRep, Record};

fn sample() -> PersonListMetadata1 {
    PersonListMetadata1 {
        dtag: "work".to_owned(),
        title: "Caf\u{e9}".to_owned(),
        last_edit_time: 1_700_000_000,
        event_created_at: -2,
        event_public_len: 258,
        event_private_len: Some(7),
    }
}

#[test]
fn metadata_bytes_are_the_fields_in_order() {
    let bytes = sample().to_bytes().unwrap();
    let mut expected: Vec<u8> = Vec::new();
    expected.extend_from_slice(&[4, 0, 0, 0]);
    expected.extend_from_slice(b"work");
    expected.extend_from_slice(&[5, 0, 0, 0]);
    expected.extend_from_slice(&[b'C', b'a', b'f', 0xc3, 0xa9]);
    expected.extend_from_slice(&1_700_000_000i64.to_le_bytes());
    expected.extend_from_slice(&[0xfe, 0xff, 0xff, 0xff, 0xff, 0xff, 0xff, 0xff]);
    expected.extend_from_slice(&[2, 1, 0, 0, 0, 0, 0, 0]);
    expected.push(1);
    expected.extend_from_slice(&[7, 0, 0, 0, 0, 0, 0, 0]);
    assert_eq!(bytes, expected);
}

#[test]
fn metadata_bytes_without_private_count_end_in_a_zero_flag() {
    let mut record = sample();
    record.event_private_len = None;
    let bytes = record.to_bytes().unwrap();
    assert_eq!(bytes.len(), 4 + 4 + 4 + 5 + 8 + 8 + 8 + 1);
    assert_eq!(bytes[bytes.len() - 1], 0);
}

#[test]
fn metadata_bytes_agree_with_speedy_on_every_field() {
    let record = sample();
    let mut expected: Vec<u8> = Vec::new();
    expected.extend_from_slice(&record.dtag.write_to_vec().unwrap());
    expected.extend_from_slice(&record.title.write_to_vec().unwrap());
    expected.extend_from_slice(&record.last_edit_time.write_to_vec().unwrap());
    expected.extend_from_slice(&record.event_created_at.write_to_vec().unwrap());
    expected.extend_from_slice(&record.event_public_len.write_to_vec().unwrap());
    expected.extend_from_slice(&record.event_private_len.write_to_vec().unwrap());
    assert_eq!(record.to_bytes().unwrap(), expected);
    let mut record = record;
    record.event_private_len = None;
    record.title = String::new();
    let mut expected: Vec<u8> = Vec::new();
    expected.extend_from_slice(&record.dtag.write_to_vec().unwrap());
    expected.extend_from_slice(&record.title.write_to_vec().unwrap());
    expected.extend_from_slice(&record.last_edit_time.write_to_vec().unwrap());
    expected.extend_from_slice(&record.event_created_at.write_to_vec().unwrap());
    expected.extend_from_slice(&record.event_public_len.write_to_vec().unwrap());
    expected.extend_from_slice(&record.event_private_len.write_to_vec().unwrap());
    assert_eq!(record.to_bytes().unwrap(), expected);
}

#[test]
fn metadata_round_trips_through_its_bytes() {
    let record = sample();
    let back = PersonListMetadata1::from_bytes(&record.to_bytes().unwrap()).unwrap();
    assert_eq!(back, record);
    let mut stable = record.clone();
    stable.stabilize();
    assert_eq!(back, stable);
    let mut plain = sample();
    plain.event_private_len = None;
    plain.last_edit_time = i64::MIN;
    plain.event_created_at = i64::MAX;
    plain.event_public_len = usize::MAX;
    let back = PersonListMetadata1::from_bytes(&plain.to_bytes().unwrap()).unwrap();
    assert_eq!(back, plain);
}

#[test]
fn metadata_decoding_rejects_what_is_no_encoding() {
    let bytes = sample().to_bytes().unwrap();
    for cut in 0..bytes.len() {
        assert!(matches!(
            PersonListMetadata1::from_bytes(&bytes[..cut]),
            Err(TableError::DecodingFailure)
        ));
    }
    let mut text = bytes.clone();
    text[4] = 0xff;
    assert!(matches!(PersonListMetadata1::from_bytes(&text), Err(TableError::DecodingFailure)));
}

#[test]
fn metadata_decoding_does_not_look_past_the_last_field() {
    let mut longer = sample().to_bytes().unwrap();
    longer.extend_from_slice(&[0, 7, 9]);
    assert_eq!(PersonListMetadata1::from_bytes(&longer).unwrap(), sample());
}

#[test]
fn metadata_decoding_takes_every_byte_but_zero_as_a_set_flag() {
    let mut flag = sample().to_bytes().unwrap();
    let at = flag.len() - 9;
    flag[at] = 2;
    assert_eq!(PersonListMetadata1::from_bytes(&flag).unwrap(), sample());
    flag[at] = 255;
    assert_eq!(PersonListMetadata1::from_bytes(&flag).unwrap(), sample());
}

#[test]
fn metadata_key_is_its_tag() {
    assert_eq!(sample().key(), "work");
    assert!(PersonListMetadata1::newable());
}

#[test]
fn metadata_stabilize_changes_nothing() {
    let mut record = sample();
    record.stabilize();
    assert_eq!(record, sample());
}

#[test]
fn text_key_bytes_are_its_utf8() {
    let key = "Caf\u{e9}".to_owned();
    assert_eq!(ByteRep::to_bytes(&key).unwrap(), vec![b'C', b'a', b'f', 0xc3, 0xa9]);
    let back = <String as ByteRep>::from_bytes(&[b'C', b'a', b'f', 0xc3, 0xa9]).unwrap();
    assert_eq!(back, key);
    assert!(matches!(
        <String as ByteRep>::from_bytes(&[0xc3]),
        Err(TableError::DecodingFailure)
    ));
}

#[test]
fn signed_numbers_go_through_their_twos_complement() {
    assert_eq!(to_unsigned(0), 0);
    assert_eq!(to_unsigned(5), 5);
    assert_eq!(to_unsigned(-1), u64::MAX);
    assert_eq!(to_unsigned(-2), u64::MAX - 1);
    assert_eq!(to_unsigned(i64::MIN), 1u64 << 63);
    assert_eq!(to_unsigned(i64::MAX), (1u64 << 63) - 1);
    assert_eq!(to_signed(u64::MAX), -1);
    assert_eq!(to_signed(1u64 << 63), i64::MIN);
    assert_eq!(to_signed((1u64 << 63) - 1), i64::MAX);
    assert_eq!(to_signed(7), 7);
}

#[test]
fn a_clock_reading_stands_for_its_seconds() {
    assert_eq!(typed_table::clock::seconds_of(Some(1_700_000_000)), 1_700_000_000);
    assert_eq!(typed_table::clock::seconds_of(Some(-3)), -3);
    assert_eq!(typed_table::clock::seconds_of(None), 0);
}
