use pmbus::error::Error;
use pmbus::ipc;
use pmbus::ipc_msgs::{
    IPCBusPublishObjectReply, Message, Serializable, IPC_BUS_PUBLISH_OBJECT_NUM,
};
use pmbus::mem_object::MemoryObject;
use pmbus::system::ResultT;

fn publish_msg_bytes(flags: u32, reply_port: u64, user_arg: u64, object_data: &[u8]) -> Vec<u8> {
    let mut v = Vec::new();
    v.extend_from_slice(&IPC_BUS_PUBLISH_OBJECT_NUM.to_le_bytes());
    v.extend_from_slice(&flags.to_le_bytes());
    v.extend_from_slice(&reply_port.to_le_bytes());
    v.extend_from_slice(&user_arg.to_le_bytes());
    v.extend_from_slice(object_data);
    v
}

#[test]
fn known_id_of_short_payload_is_none() {
    for n in 0..4 {
        let m = ipc::Message { data: vec![1u8; n], sender: 1, object: None };
        assert!(m.get_known_id().is_none());
    }
}

#[test]
fn known_id_reads_leading_tag() {
    let m = ipc::Message { data: vec![0xa0, 0x01, 0, 0, 9, 9], sender: 1, object: None };
    assert_eq!(m.get_known_id(), Some(0x1a0));
}

#[test]
fn deserialize_publish_object_message() {
    let data = publish_msg_bytes(5, 1234, 0xdead, b"tail");
    let m = ipc::Message { data, sender: 42, object: None };
    match m.deserialize() {
        Message::IPCBusPublishObject(o) => {
            assert_eq!(o.flags, 5);
            assert_eq!(o.reply_port, 1234);
            assert_eq!(o.user_arg, 0xdead);
            assert_eq!(o.object_data, b"tail".to_vec());
        }
        Message::Unknown => panic!("expected a publish-object message"),
    }
}

#[test]
fn deserialize_unknown_tag() {
    let mut data = publish_msg_bytes(0, 0, 0, b"");
    data[0] = 0x33;
    let m = ipc::Message { data, sender: 1, object: None };
    assert!(matches!(m.deserialize(), Message::Unknown));
}

#[test]
fn deserialize_truncated_publish_header() {
    let data = publish_msg_bytes(0, 0, 0, b"");
    for n in 0..24 {
        let m = ipc::Message { data: data[..n].to_vec(), sender: 1, object: None };
        assert!(matches!(m.deserialize(), Message::Unknown));
    }
}

#[test]
fn reply_serializes_to_32_exact_bytes() {
    let mut r = IPCBusPublishObjectReply::new();
    r.result = -22;
    r.user_arg = 0x1122334455667788;
    r.sequence_number = 9;
    let b = r.serialize();
    assert_eq!(b.len(), 32);
    assert_eq!(&b[0..4], &0x1b0u32.to_le_bytes());
    assert_eq!(&b[4..8], &[0, 0, 0, 0]);
    assert_eq!(&b[8..12], &(-22i32).to_le_bytes());
    assert_eq!(&b[12..16], &[0, 0, 0, 0]);
    assert_eq!(&b[16..24], &0x1122334455667788u64.to_le_bytes());
    assert_eq!(&b[24..32], &9u64.to_le_bytes());
}

#[test]
fn fresh_reply_is_zeroed_with_tag() {
    let r = IPCBusPublishObjectReply::new();
    assert_eq!(r.msg_type, 0x1b0);
    assert_eq!(r.result, 0);
    assert_eq!(r.user_arg, 0);
    assert_eq!(r.sequence_number, 0);
}

#[test]
fn error_codes_degrade_to_invalid_argument() {
    assert_eq!(Error::from_errno(0).get(), 22);
    assert_eq!(Error::from_errno(-5).get(), 22);
    assert_eq!(Error::from_errno(83).get(), 22);
    assert_eq!(Error::from_errno(1000).get(), 22);
    assert_eq!(Error::from_errno(1).get(), 1);
    assert_eq!(Error::from_errno(82).get(), 82);
}

#[test]
fn result_t_success_and_mapping() {
    assert!(ResultT(0).success());
    assert!(!ResultT(-1).success());
    assert!(ResultT(0).result().is_ok());
    assert_eq!(ResultT(-1).result().unwrap_err().get(), 1);
    assert_eq!(ResultT(-22).result().unwrap_err().get(), 22);
    // out of the valid domain: degrades to "invalid argument"
    assert_eq!(ResultT(-1000).result().unwrap_err().get(), 22);
    assert_eq!(ResultT(7).result().unwrap_err().get(), 22);
}

#[test]
fn grant_ownership_moves_only_on_successful_send() {
    // After a successful send the grant was transferred: nothing comes
    // back, so no release is owed locally.
    let grant = MemoryObject::from_message(55).unwrap();
    let (res, leftover) = ipc::finish_send(ResultT(0), Some(grant));
    assert!(res.is_ok());
    assert!(leftover.is_none());
    // After a failed send the grant stays with the caller, who still owes
    // its release.
    let grant = MemoryObject::from_message(55).unwrap();
    let (res, leftover) = ipc::finish_send(ResultT(-22), Some(grant));
    assert_eq!(res.unwrap_err().get(), 22);
    assert_eq!(leftover.unwrap().id(), 55);
}

#[test]
fn zero_grant_id_means_no_object() {
    assert!(MemoryObject::from_message(0).is_none());
    assert_eq!(MemoryObject::from_message(3).unwrap().id(), 3);
}

#[test]
fn right_ownership_moves_to_name_registry_only_on_success() {
    let right = ipc::SendManyRight::new(8);
    let (res, leftover) = ipc::finish_name(ResultT(0), right);
    assert!(res.is_ok());
    assert!(leftover.is_none());
    let right = ipc::SendManyRight::new(8);
    let (res, leftover) = ipc::finish_name(ResultT(-13), right);
    assert_eq!(res.unwrap_err().get(), 13);
    assert_eq!(leftover.unwrap().id(), 8);
}
