use pmbus::daemon::{
    create_find_task_group, find_task_group, publish_commit, publish_decide, publish_object_error,
    publish_object_success, PublishDecision, State, TaskGroup,
};
use pmbus::ipc;
use pmbus::ipc_msgs::Message;
use pmbus::pmbus::{ObjectProperty, PMBusObject};

fn publish_request(obj: &PMBusObject, task_group: u64, reply_port: u64, user_arg: u64) -> ipc::Message {
    let mut data = Vec::new();
    data.extend_from_slice(&0x1a0u32.to_le_bytes());
    data.extend_from_slice(&0u32.to_le_bytes());
    data.extend_from_slice(&reply_port.to_le_bytes());
    data.extend_from_slice(&user_arg.to_le_bytes());
    data.extend_from_slice(&obj.serialize(task_group));
    ipc::Message { data, sender: 1000, object: None }
}

fn disk_object(name: &[u8]) -> PMBusObject {
    let mut obj = PMBusObject::new(name.to_vec());
    obj.properties.push((b"size".to_vec(), ObjectProperty::Integer(1024)));
    obj
}

// One full publish round against the registry, with the membership answer
// and the reply-delivery outcome injected; returns the reply that would be
// sent back.
fn run_publish(
    state: &mut State,
    msg: &ipc::Message,
    is_member: bool,
    reply_deliverable: bool,
) -> pmbus::ipc_msgs::IPCBusPublishObjectReply {
    let o = match msg.deserialize() {
        Message::IPCBusPublishObject(o) => o,
        Message::Unknown => panic!("expected a publish-object message"),
    };
    match PMBusObject::deserialize(&o.object_data) {
        Err(e) => publish_object_error(e.get(), o.user_arg),
        Ok((obj, task_group)) => {
            let notifier_error = 0; // the kernel accepted the notifier registration
            match publish_decide(state, is_member, notifier_error, o.user_arg) {
                PublishDecision::Reject(reply) => reply,
                PublishDecision::Accept { sequence_id, reply } => {
                    publish_commit(state, obj, task_group, reply_deliverable);
                    if reply_deliverable {
                        assert_eq!(reply.sequence_number, sequence_id);
                        reply
                    } else {
                        publish_object_error(22, o.user_arg)
                    }
                }
            }
        }
    }
}

#[test]
fn end_to_end_publish_scenario() {
    // Task T, a member of group G, publishes {name: "disk0",
    // properties: {"size": Integer(1024)}}: the daemon replies with
    // result 0 and sequence number 1; a second publish from the same
    // group gets 2; a publish from a non-member gets -EPERM.
    let g = 7777;
    let mut state = State::new(10);
    let msg = publish_request(&disk_object(b"disk0"), g, 500, 0xaa);
    let reply = run_publish(&mut state, &msg, true, true);
    assert_eq!(reply.result, 0);
    assert_eq!(reply.sequence_number, 1);
    assert_eq!(reply.user_arg, 0xaa);

    let msg2 = publish_request(&disk_object(b"disk1"), g, 500, 0xbb);
    let reply2 = run_publish(&mut state, &msg2, true, true);
    assert_eq!(reply2.result, 0);
    assert_eq!(reply2.sequence_number, 2);

    let msg3 = publish_request(&disk_object(b"disk2"), g, 500, 0xcc);
    let reply3 = run_publish(&mut state, &msg3, false, true);
    assert_eq!(reply3.result, -1); // -EPERM
    assert_eq!(reply3.sequence_number, 0);
    assert_eq!(reply3.user_arg, 0xcc);

    // the rejected publish left the registry untouched
    assert_eq!(state.properties.len(), 2);
    assert_eq!(state.next_sequence_id, 3);
    assert_eq!(state.properties[0].sequence_id, 1);
    assert_eq!(state.properties[0].name, b"disk0".to_vec());
    assert_eq!(state.properties[1].sequence_id, 2);
    assert_eq!(state.properties[1].task_group, g);
}

#[test]
fn sequence_ids_are_strictly_increasing_across_groups() {
    let mut state = State::new(10);
    for (i, g) in [5u64, 9, 5, 12, 9].iter().enumerate() {
        let msg = publish_request(&disk_object(b"dev"), *g, 1, i as u64);
        let reply = run_publish(&mut state, &msg, true, true);
        assert_eq!(reply.result, 0);
        assert_eq!(reply.sequence_number, (i + 1) as u64);
    }
    for w in state.properties.windows(2) {
        assert!(w[0].sequence_id < w[1].sequence_id);
    }
    assert_eq!(state.task_groups.len(), 3);
}

#[test]
fn non_member_publish_never_mutates_registry() {
    let mut state = State::new(10);
    let msg = publish_request(&disk_object(b"disk0"), 4, 500, 1);
    let reply = run_publish(&mut state, &msg, false, true);
    assert_eq!(reply.result, -1);
    assert!(state.properties.is_empty());
    assert!(state.task_groups.is_empty());
    assert_eq!(state.next_sequence_id, 1);
}

#[test]
fn malformed_object_data_is_answered_with_einval() {
    let mut state = State::new(10);
    let mut data = Vec::new();
    data.extend_from_slice(&0x1a0u32.to_le_bytes());
    data.extend_from_slice(&0u32.to_le_bytes());
    data.extend_from_slice(&500u64.to_le_bytes());
    data.extend_from_slice(&77u64.to_le_bytes());
    data.extend_from_slice(b"garbage");
    let msg = ipc::Message { data, sender: 1, object: None };
    let reply = run_publish(&mut state, &msg, true, true);
    assert_eq!(reply.result, -22);
    assert_eq!(reply.user_arg, 77);
    assert!(state.properties.is_empty());
}

#[test]
fn undeliverable_reply_abandons_registration() {
    let mut state = State::new(10);
    let msg = publish_request(&disk_object(b"disk0"), 4, 500, 1);
    let reply = run_publish(&mut state, &msg, true, false);
    assert_eq!(reply.result, -22);
    assert!(state.properties.is_empty());
    assert!(state.task_groups.is_empty());
    // the allocated sequence id was consumed and is never handed out again
    assert_eq!(state.next_sequence_id, 2);
    let msg2 = publish_request(&disk_object(b"disk0"), 4, 500, 2);
    let reply2 = run_publish(&mut state, &msg2, true, true);
    assert_eq!(reply2.sequence_number, 2);
}

#[test]
fn notifier_registration_failure_is_reported() {
    let state = State::new(10);
    match publish_decide(&state, true, 12, 9) {
        PublishDecision::Reject(reply) => {
            assert_eq!(reply.result, -12);
            assert_eq!(reply.user_arg, 9);
        }
        PublishDecision::Accept { .. } => panic!("expected a rejection"),
    }
}

#[test]
fn task_groups_are_found_or_created_once() {
    let mut state = State::new(10);
    assert!(find_task_group(&state, 5).is_none());
    let a = create_find_task_group(5, &mut state);
    let b = create_find_task_group(5, &mut state);
    assert_eq!(a, b);
    assert_eq!(state.task_groups.len(), 1);
    assert_eq!(state.task_groups[0].id, 5);
    let c = create_find_task_group(6, &mut state);
    assert_ne!(a, c);
    assert_eq!(state.task_groups.len(), 2);
    assert_eq!(find_task_group(&state, 6), Some(c));
}

#[test]
fn fresh_task_group_record_is_empty() {
    let g = TaskGroup::new(31);
    assert_eq!(g.id, 31);
    assert!(g.sequences.is_empty());
}

#[test]
fn reply_builders_fill_the_fixed_fields() {
    let e = publish_object_error(22, 5);
    assert_eq!(e.msg_type, 0x1b0);
    assert_eq!(e.result, -22);
    assert_eq!(e.user_arg, 5);
    assert_eq!(e.sequence_number, 0);
    let s = publish_object_success(5, 8);
    assert_eq!(s.msg_type, 0x1b0);
    assert_eq!(s.result, 0);
    assert_eq!(s.user_arg, 5);
    assert_eq!(s.sequence_number, 8);
}

#[test]
fn commit_records_group_membership_of_objects() {
    let mut state = State::new(10);
    let msg = publish_request(&disk_object(b"disk0"), 4, 500, 1);
    run_publish(&mut state, &msg, true, true);
    let g = find_task_group(&state, 4).unwrap();
    assert_eq!(state.task_groups[g].sequences, vec![1]);
}
