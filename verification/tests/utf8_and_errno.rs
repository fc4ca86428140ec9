use pmbus::pmbus::{ObjectPropertyRef, PMBusObject};

fn header(size: u32, name: &[u8]) -> Vec<u8> {
    let mut v = Vec::new();
    v.extend_from_slice(&size.to_le_bytes());
    v.extend_from_slice(&(name.len() as u16).to_le_bytes());
    v.extend_from_slice(&((24 + name.len()) as u16).to_le_bytes());
    v.extend_from_slice(&0u64.to_le_bytes());
    v.extend_from_slice(&1u64.to_le_bytes());
    v.extend_from_slice(name);
    v
}

fn record(ptype: u8, name: &[u8], payload: &[u8]) -> Vec<u8> {
    let name_end = 4 + name.len() + 1;
    let length = name_end + payload.len();
    let mut v = Vec::new();
    v.extend_from_slice(&(length as u16).to_le_bytes());
    v.push(ptype);
    v.push(name_end as u8);
    v.extend_from_slice(name);
    v.push(0);
    v.extend_from_slice(payload);
    v
}

fn with_record(rec: &[u8]) -> Vec<u8> {
    let mut data = header((24 + rec.len()) as u32, b"");
    data.extend_from_slice(rec);
    data
}

#[test]
fn multibyte_name_is_accepted() {
    let name = "caf\u{e9}\u{4e16}".as_bytes();
    let data = header((24 + name.len()) as u32, name);
    let (obj, _) = PMBusObject::deserialize(&data).unwrap();
    assert_eq!(obj.name, name.to_vec());
}

#[test]
fn overlong_utf8_name_is_invalid() {
    // 0xC0 0x80 is an overlong encoding of NUL and must be refused.
    let data = header(26, &[0xC0, 0x80]);
    assert_eq!(PMBusObject::deserialize(&data).unwrap_err().get(), 22);
}

#[test]
fn surrogate_utf8_name_is_invalid() {
    // 0xED 0xA0 0x80 encodes a surrogate code point.
    let data = header(27, &[0xED, 0xA0, 0x80]);
    assert_eq!(PMBusObject::deserialize(&data).unwrap_err().get(), 22);
}

#[test]
fn invalid_utf8_in_property_name_is_invalid() {
    let rec = record(0x02, &[0xff], &7u64.to_le_bytes());
    assert_eq!(PMBusObject::deserialize(&with_record(&rec)).unwrap_err().get(), 22);
}

#[test]
fn invalid_utf8_in_string_value_is_invalid() {
    let rec = record(0x01, b"model", &[0x80, 0x80, 0x00]);
    assert_eq!(PMBusObject::deserialize(&with_record(&rec)).unwrap_err().get(), 22);
}

#[test]
fn property_name_without_nul_is_invalid() {
    // name area holds no NUL terminator at all
    let name_end = 4 + 3;
    let length = name_end + 8;
    let mut rec = Vec::new();
    rec.extend_from_slice(&(length as u16).to_le_bytes());
    rec.push(0x02);
    rec.push(name_end as u8);
    rec.extend_from_slice(b"abc");
    rec.extend_from_slice(&7u64.to_le_bytes());
    assert_eq!(PMBusObject::deserialize(&with_record(&rec)).unwrap_err().get(), 22);
}

#[test]
fn string_value_without_nul_is_invalid() {
    let rec = record(0x01, b"model", b"novalue");
    assert_eq!(PMBusObject::deserialize(&with_record(&rec)).unwrap_err().get(), 22);
}

#[test]
fn list_value_without_final_nul_is_invalid() {
    let rec = record(0x03, b"parts", b"a\0b");
    assert_eq!(PMBusObject::deserialize(&with_record(&rec)).unwrap_err().get(), 22);
}

#[test]
fn list_with_leading_nul_yields_an_empty_member() {
    // A NUL that opens the payload terminates an empty string, which is a
    // member; only NUL runs after a member are padding.
    let rec = record(0x03, b"parts", b"\0a\0");
    let (obj, _) = PMBusObject::deserialize(&with_record(&rec)).unwrap();
    match obj.get_property(b"parts") {
        Some(ObjectPropertyRef::List(l)) => {
            assert_eq!(l.len(), 2);
            assert!(l.contains(&b"".to_vec()));
            assert!(l.contains(&b"a".to_vec()));
        }
        _ => panic!("expected a list property"),
    }
}

#[test]
fn error_constants_match_the_platform() {
    assert_eq!(pmbus::error::EPERM, libc::EPERM);
    assert_eq!(pmbus::error::EINVAL, libc::EINVAL);
}
