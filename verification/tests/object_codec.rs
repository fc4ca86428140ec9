use pmbus::pmbus::{ObjectProperty, ObjectPropertyRef, PMBusObject};

fn header(size: u32, name: &[u8], handle_port: u64, task_group: u64) -> Vec<u8> {
    let mut v = Vec::new();
    v.extend_from_slice(&size.to_le_bytes());
    v.extend_from_slice(&(name.len() as u16).to_le_bytes());
    v.extend_from_slice(&((24 + name.len()) as u16).to_le_bytes());
    v.extend_from_slice(&handle_port.to_le_bytes());
    v.extend_from_slice(&task_group.to_le_bytes());
    v.extend_from_slice(name);
    v
}

fn record(ptype: u8, name: &[u8], payload: &[u8]) -> Vec<u8> {
    let name_end = 4 + name.len() + 1;
    let length = name_end + payload.len();
    let mut v = Vec::new();
    v.extend_from_slice(&(length as u16).to_le_bytes());
    v.push(ptype);
    v.push(name_end as u8);
    v.extend_from_slice(name);
    v.push(0);
    v.extend_from_slice(payload);
    v
}

#[test]
fn decodes_header_only_object() {
    let data = header(24, b"", 7, 9);
    let (obj, tg) = PMBusObject::deserialize(&data).unwrap();
    assert_eq!(tg, 9);
    assert_eq!(obj.handle_port, 7);
    assert_eq!(obj.name, b"".to_vec());
    assert!(obj.properties.is_empty());
}

#[test]
fn decodes_named_object_with_integer() {
    let rec = record(0x02, b"size", &1024u64.to_le_bytes());
    let size = (24 + 5 + rec.len()) as u32;
    let mut data = header(size, b"disk0", 11, 3);
    data.extend_from_slice(&rec);
    let (obj, tg) = PMBusObject::deserialize(&data).unwrap();
    assert_eq!(tg, 3);
    assert_eq!(obj.name, b"disk0".to_vec());
    match obj.get_property(b"size") {
        Some(ObjectPropertyRef::Integer(v)) => assert_eq!(v, 1024),
        _ => panic!("expected an integer property"),
    }
}

#[test]
fn decodes_string_property() {
    let rec = record(0x01, b"model", b"rotational\0");
    let size = (24 + rec.len()) as u32;
    let mut data = header(size, b"", 0, 1);
    data.extend_from_slice(&rec);
    let (obj, _) = PMBusObject::deserialize(&data).unwrap();
    match obj.get_property(b"model") {
        Some(ObjectPropertyRef::String(s)) => assert_eq!(s, &b"rotational".to_vec()),
        _ => panic!("expected a string property"),
    }
}

#[test]
fn list_padding_nuls_are_skipped() {
    // "a\0b\0\0c\0" decodes to the set {a, b, c}: the doubled NUL is
    // padding, not an empty member.
    let rec = record(0x03, b"parts", b"a\0b\0\0c\0");
    let size = (24 + rec.len()) as u32;
    let mut data = header(size, b"", 0, 1);
    data.extend_from_slice(&rec);
    let (obj, _) = PMBusObject::deserialize(&data).unwrap();
    match obj.get_property(b"parts") {
        Some(ObjectPropertyRef::List(l)) => {
            assert_eq!(l.len(), 3);
            assert!(l.contains(&b"a".to_vec()));
            assert!(l.contains(&b"b".to_vec()));
            assert!(l.contains(&b"c".to_vec()));
        }
        _ => panic!("expected a list property"),
    }
}

#[test]
fn list_duplicate_members_collapse() {
    let rec = record(0x03, b"parts", b"a\0a\0b\0");
    let size = (24 + rec.len()) as u32;
    let mut data = header(size, b"", 0, 1);
    data.extend_from_slice(&rec);
    let (obj, _) = PMBusObject::deserialize(&data).unwrap();
    match obj.get_property(b"parts") {
        Some(ObjectPropertyRef::List(l)) => assert_eq!(l.len(), 2),
        _ => panic!("expected a list property"),
    }
}

#[test]
fn short_input_is_invalid() {
    for n in 0..24 {
        let data = vec![0u8; n];
        let e = PMBusObject::deserialize(&data).unwrap_err();
        assert_eq!(e.get(), 22);
    }
}

#[test]
fn size_claiming_more_than_provided_is_invalid() {
    // The size field claims 1000 bytes but only the header is there.
    let data = header(1000, b"", 0, 1);
    let e = PMBusObject::deserialize(&data).unwrap_err();
    assert_eq!(e.get(), 22);
}

#[test]
fn record_length_past_size_is_invalid() {
    // One record whose length field reaches past the declared size.
    let rec = record(0x02, b"size", &1024u64.to_le_bytes());
    let size = (24 + rec.len() - 1) as u32; // one byte short
    let mut data = header(size, b"", 0, 1);
    data.extend_from_slice(&rec);
    data.pop();
    let e = PMBusObject::deserialize(&data).unwrap_err();
    assert_eq!(e.get(), 22);
}

#[test]
fn every_truncation_of_a_valid_object_fails_or_ignores_the_tail() {
    // Truncating the buffer below the declared size must yield "invalid
    // argument"; it must never panic.
    let rec = record(0x03, b"parts", b"a\0b\0");
    let size = (24 + 3 + rec.len()) as u32;
    let mut data = header(size, b"net", 2, 6);
    data.extend_from_slice(&rec);
    assert!(PMBusObject::deserialize(&data).is_ok());
    for n in 0..data.len() {
        let e = PMBusObject::deserialize(&data[..n]).unwrap_err();
        assert_eq!(e.get(), 22);
    }
}

#[test]
fn name_overlapping_properties_is_invalid() {
    // 24 + name_length > properties_offset
    let mut data = header(24, b"abc", 0, 1);
    // patch properties_offset down to 24
    data[6] = 24;
    data[7] = 0;
    let e = PMBusObject::deserialize(&data).unwrap_err();
    assert_eq!(e.get(), 22);
}

#[test]
fn invalid_name_utf8_is_invalid() {
    let data = header(27, &[0xff, 0xfe, 0xfd], 0, 1);
    let e = PMBusObject::deserialize(&data).unwrap_err();
    assert_eq!(e.get(), 22);
}

#[test]
fn unknown_property_type_is_invalid() {
    let rec = record(0x07, b"x", b"\0");
    let size = (24 + rec.len()) as u32;
    let mut data = header(size, b"", 0, 1);
    data.extend_from_slice(&rec);
    let e = PMBusObject::deserialize(&data).unwrap_err();
    assert_eq!(e.get(), 22);
}

#[test]
fn integer_payload_must_be_eight_bytes() {
    let rec = record(0x02, b"n", &[1, 2, 3, 4]);
    let size = (24 + rec.len()) as u32;
    let mut data = header(size, b"", 0, 1);
    data.extend_from_slice(&rec);
    let e = PMBusObject::deserialize(&data).unwrap_err();
    assert_eq!(e.get(), 22);
}

#[test]
fn zero_length_record_is_invalid() {
    let mut data = header(28, b"", 0, 1);
    data.extend_from_slice(&[0, 0, 2, 0]); // length 0: the walk cannot advance
    let e = PMBusObject::deserialize(&data).unwrap_err();
    assert_eq!(e.get(), 22);
}

#[test]
fn later_record_overrides_earlier_name() {
    let rec1 = record(0x02, b"n", &1u64.to_le_bytes());
    let rec2 = record(0x02, b"n", &2u64.to_le_bytes());
    let size = (24 + rec1.len() + rec2.len()) as u32;
    let mut data = header(size, b"", 0, 1);
    data.extend_from_slice(&rec1);
    data.extend_from_slice(&rec2);
    let (obj, _) = PMBusObject::deserialize(&data).unwrap();
    assert_eq!(obj.properties.len(), 1);
    match obj.get_property(b"n") {
        Some(ObjectPropertyRef::Integer(v)) => assert_eq!(v, 2),
        _ => panic!("expected an integer property"),
    }
}

#[test]
fn serialize_then_deserialize_reproduces_the_object() {
    let mut obj = PMBusObject::new(b"disk0".to_vec());
    obj.handle_port = 77;
    obj.properties.push((b"size".to_vec(), ObjectProperty::Integer(1024)));
    obj.properties.push((b"model".to_vec(), ObjectProperty::String(b"virtio".to_vec())));
    obj.properties.push((
        b"parts".to_vec(),
        ObjectProperty::List(vec![b"p1".to_vec(), b"p2".to_vec()]),
    ));
    let data = obj.serialize(42);
    let (back, tg) = PMBusObject::deserialize(&data).unwrap();
    assert_eq!(tg, 42);
    assert_eq!(back.name, b"disk0".to_vec());
    assert_eq!(back.handle_port, 77);
    assert_eq!(back.properties.len(), 3);
    match back.get_property(b"size") {
        Some(ObjectPropertyRef::Integer(v)) => assert_eq!(v, 1024),
        _ => panic!("expected an integer property"),
    }
    match back.get_property(b"model") {
        Some(ObjectPropertyRef::String(s)) => assert_eq!(s, &b"virtio".to_vec()),
        _ => panic!("expected a string property"),
    }
    match back.get_property(b"parts") {
        Some(ObjectPropertyRef::List(l)) => {
            assert_eq!(l.len(), 2);
            assert!(l.contains(&b"p1".to_vec()));
            assert!(l.contains(&b"p2".to_vec()));
        }
        _ => panic!("expected a list property"),
    }
    assert!(back.get_property(b"missing").is_none());
}

#[test]
fn serialize_empty_object_round_trips() {
    let obj = PMBusObject::new(Vec::new());
    let data = obj.serialize(5);
    assert_eq!(data.len(), 24);
    let (back, tg) = PMBusObject::deserialize(&data).unwrap();
    assert_eq!(tg, 5);
    assert!(back.properties.is_empty());
    assert_eq!(back.name, Vec::<u8>::new());
}

#[test]
fn properties_offset_at_or_past_size_means_no_records() {
    // the record walk runs only while the offset is below the declared
    // size; an offset at or past it leaves the object without properties
    let mut data = header(24, b"", 3, 4);
    data[6] = 200; // properties_offset far beyond size
    data[7] = 0;
    let (obj, tg) = PMBusObject::deserialize(&data).unwrap();
    assert!(obj.properties.is_empty());
    assert_eq!(tg, 4);
}

#[test]
fn bytes_past_the_declared_size_are_ignored() {
    let rec = record(0x02, b"size", &7u64.to_le_bytes());
    let size = (24 + rec.len()) as u32;
    let mut data = header(size, b"", 0, 1);
    data.extend_from_slice(&rec);
    data.extend_from_slice(b"trailing junk that is not part of the object");
    let (obj, _) = PMBusObject::deserialize(&data).unwrap();
    assert_eq!(obj.properties.len(), 1);
}

#[test]
fn serialize_produces_the_documented_wire_layout() {
    let mut obj = PMBusObject::new(b"net0".to_vec());
    obj.handle_port = 9;
    obj.properties.push((b"mtu".to_vec(), ObjectProperty::Integer(1500)));
    let wire = obj.serialize(33);
    let rec = record(0x02, b"mtu", &1500u64.to_le_bytes());
    let mut expected = header((24 + 4 + rec.len()) as u32, b"net0", 9, 33);
    expected.extend_from_slice(&rec);
    assert_eq!(wire, expected);
}
