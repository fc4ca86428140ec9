use vstd::prelude::*;
use crate::error::EPERM;
use crate::ipc::Port;
use crate::ipc_msgs::{IPCBusPublishObjectReply, IPC_BUS_PUBLISH_OBJECT_REPLY_NUM};
use crate::pmbus::{ObjectProperties, PMBusObject};

verus! {

/// Task-group lifecycle notification: the group was destroyed.
pub const NOTIFICATION_GROUP_DESTROYED: u32 = 0x01;

/// Task-group lifecycle notification: a task left the group.
pub const NOTIFICATION_TASK_REMOVED: u32 = 0x02;

/// Task-group lifecycle notification: a task joined the group.
pub const NOTIFICATION_TASK_ADDED: u32 = 0x04;

/// A tracked task group: its kernel identifier and the sequence ids of
/// the objects published from it, in order of registration.
pub struct TaskGroup {
    pub id: u64,
    pub sequences: Vec<u64>,
}

impl TaskGroup {
    /// A fresh record for a group that owns no objects yet. The caller is
    /// expected to have registered a group-destroyed notifier for the
    /// group before tracking it.
    pub fn new(id: u64) -> (r: TaskGroup)
        ensures
            r.id == id,
            r.sequences@ == Seq::<u64>::empty(),
    {
        TaskGroup { id, sequences: Vec::new() }
    }
}

/// A registry entry: a published object together with the bus-assigned
/// sequence id and the task group that owns it. Never mutated after
/// registration.
pub struct ObjectInfo {
    pub sequence_id: u64,
    pub properties: ObjectProperties,
    pub name: Vec<u8>,
    pub task_group: u64,
    pub handle_port: u64,
}

/// The daemon's whole state: the object registry keyed by sequence id,
/// the tracked task groups, the next sequence id to hand out, and the
/// daemon's own receiving port.
pub struct State {
    pub properties: Vec<ObjectInfo>,
    pub task_groups: Vec<TaskGroup>,
    pub next_sequence_id: u64,
    pub main_port: Port,
}

impl State {
    /// The registry's invariant: sequence ids are handed out from a
    /// counter that starts at 1 and only grows, so registered objects
    /// carry pairwise distinct, strictly increasing ids, all below the
    /// counter; tracked groups are pairwise distinct, and the ids
    /// recorded in each group grow strictly as well.
    pub open spec fn wf(&self) -> bool {
        &&& 1 <= self.next_sequence_id
        &&& forall|i: int, j: int|
            0 <= i < j < self.properties@.len() ==> self.properties@[i].sequence_id
                < self.properties@[j].sequence_id
        &&& forall|i: int|
            0 <= i < self.properties@.len() ==> self.properties@[i].sequence_id
                < self.next_sequence_id
        &&& forall|g: int, h: int|
            0 <= g < h < self.task_groups@.len() ==> self.task_groups@[g].id
                != self.task_groups@[h].id
        &&& forall|g: int, i: int, j: int|
            0 <= g < self.task_groups@.len() && 0 <= i < j < self.task_groups@[g].sequences@.len()
                ==> self.task_groups@[g].sequences@[i] < self.task_groups@[g].sequences@[j]
        &&& forall|g: int, i: int|
            0 <= g < self.task_groups@.len() && 0 <= i < self.task_groups@[g].sequences@.len()
                ==> self.task_groups@[g].sequences@[i] < self.next_sequence_id
            }

    /// A fresh registry: empty, with sequence ids starting at 1.
    pub fn new(main_port: Port) -> (r: State)
        ensures
            r.wf(),
            r.properties@ == Seq::<ObjectInfo>::empty(),
            r.task_groups@ == Seq::<TaskGroup>::empty(),
            r.next_sequence_id == 1,
            r.main_port == main_port,
    {
        State { properties: Vec::new(), task_groups: Vec::new(), next_sequence_id: 1, main_port }
    }
}

/// The error reply to a failed publish request: the error code negated,
/// the caller's correlation argument echoed.
pub fn publish_object_error(error: i32, user_arg: u64) -> (r: IPCBusPublishObjectReply)
    requires
        0 <= error < 83,
    ensures
        r.msg_type == IPC_BUS_PUBLISH_OBJECT_REPLY_NUM,
        r.result == -error,
        r.user_arg == user_arg,
        r.sequence_number == 0,
        r.flags == 0,
        r.reserved == 0,
{
    let mut msg = IPCBusPublishObjectReply::new();
    msg.result = -error;
    msg.user_arg = user_arg;
    msg
}

/// The success reply to a publish request: result zero, the assigned
/// sequence id, the caller's correlation argument echoed.
pub fn publish_object_success(user_arg: u64, seq_id: u64) -> (r: IPCBusPublishObjectReply)
    ensures
        r.msg_type == IPC_BUS_PUBLISH_OBJECT_REPLY_NUM,
        r.result == 0,
        r.user_arg == user_arg,
        r.sequence_number == seq_id,
        r.flags == 0,
        r.reserved == 0,
{
    let mut msg = IPCBusPublishObjectReply::new();
    msg.sequence_number = seq_id;
    msg.user_arg = user_arg;
    msg
}

/// Looks a task group up by id; the registry's groups are distinct, so
/// the index is the only one carrying that id.
pub fn find_task_group(state: &State, task_group_id: u64) -> (r: Option<usize>)
    ensures
        match r {
            Some(g) => g < state.task_groups@.len() && state.task_groups@[g as int].id
                == task_group_id,
            None => forall|g: int|
                0 <= g < state.task_groups@.len() ==> state.task_groups@[g].id != task_group_id,
        },
{
    let n = state.task_groups.len();
    let mut g: usize = 0;
    while g < n
        invariant
            n == state.task_groups@.len(),
            g <= n,
            forall|k: int| 0 <= k < g ==> state.task_groups@[k].id != task_group_id,
        decreases n - g,
    {
        if state.task_groups[g].id == task_group_id {
            return Some(g);
        }
        g = g + 1;
    }
    None
}

/// Finds the record of a task group, creating and tracking a fresh one if
/// the group is not tracked yet. The caller registers the group-destroyed
/// notifier before a fresh record is committed.
pub fn create_find_task_group(task_group_id: u64, state: &mut State) -> (r: usize)
    requires
        old(state).wf(),
    ensures
        final(state).wf(),
        r < final(state).task_groups@.len(),
        final(state).task_groups@[r as int].id == task_group_id,
        final(state).properties == old(state).properties,
        final(state).next_sequence_id == old(state).next_sequence_id,
        final(state).main_port == old(state).main_port,
        (exists|g: int|
            0 <= g < old(state).task_groups@.len() && old(state).task_groups@[g].id
                == task_group_id) ==> *final(state) == *old(state),
        !(exists|g: int|
            0 <= g < old(state).task_groups@.len() && old(state).task_groups@[g].id
                == task_group_id) ==> ({
            &&& final(state).task_groups@.len() == old(state).task_groups@.len() + 1
            &&& r == old(state).task_groups@.len()
            &&& final(state).task_groups@[r as int].sequences@ == Seq::<u64>::empty()
            &&& forall|g: int|
                0 <= g < old(state).task_groups@.len() ==> final(state).task_groups@[g] == old(
                    state,
                ).task_groups@[g]
        }),
{
    match find_task_group(state, task_group_id) {
        Some(g) => g,
        None => {
            let g = state.task_groups.len();
            state.task_groups.push(TaskGroup::new(task_group_id));
            proof {
                assert(state.task_groups@.last().sequences@.len() == 0);
                assert forall|a: int, b: int|
                    0 <= a < b < state.task_groups@.len() implies state.task_groups@[a].id
                    != state.task_groups@[b].id by {
                    if b < g {
                        assert(state.task_groups@[a] == old(state).task_groups@[a]);
                        assert(state.task_groups@[b] == old(state).task_groups@[b]);
                    } else {
                        assert(state.task_groups@[a] == old(state).task_groups@[a]);
                    }
                };
            }
            g
        },
    }
}

/// A hook run after an object is registered; the registry is left as it
/// stands.
pub fn new_object_stuff(sequence_id: u64, state: &mut State)
    ensures
        *final(state) == *old(state),
{
}

/// What the daemon decides to do with a publish request once the object
/// has been decoded: either reject it with an error reply, or accept it,
/// sending the success reply that carries the sequence id the object will
/// be registered under if the reply goes through.
pub enum PublishDecision {
    Reject(IPCBusPublishObjectReply),
    Accept { sequence_id: u64, reply: IPCBusPublishObjectReply },
}

/// Decides a decoded publish request. A sender that is not a member of
/// the task group it claims is always refused with "permission denied",
/// and the registry is left untouched — this function cannot mutate it.
/// A failure to register the group-destroyed notifier for a fresh group
/// (`notifier_error` non-zero) is passed back to the publisher the same
/// way. Otherwise the request is accepted under the next sequence id.
pub fn publish_decide(state: &State, sender_is_member: bool, notifier_error: i32, user_arg: u64)
    -> (r: PublishDecision)
    requires
        0 <= notifier_error < 83,
    ensures
        !sender_is_member ==> (r matches PublishDecision::Reject(m) && m.result == -EPERM
            && m.user_arg == user_arg && m.msg_type == IPC_BUS_PUBLISH_OBJECT_REPLY_NUM
            && m.sequence_number == 0),
        sender_is_member && notifier_error != 0 ==> (r matches PublishDecision::Reject(m)
            && m.result == -notifier_error && m.user_arg == user_arg && m.msg_type
            == IPC_BUS_PUBLISH_OBJECT_REPLY_NUM && m.sequence_number == 0),
        sender_is_member && notifier_error == 0 ==> (r matches PublishDecision::Accept {
            sequence_id,
            reply,
        } && sequence_id == state.next_sequence_id && reply.result == 0 && reply.user_arg
            == user_arg && reply.sequence_number == state.next_sequence_id && reply.msg_type
            == IPC_BUS_PUBLISH_OBJECT_REPLY_NUM),
{
    if !sender_is_member {
        PublishDecision::Reject(publish_object_error(EPERM, user_arg))
    } else if notifier_error != 0 {
        PublishDecision::Reject(publish_object_error(notifier_error, user_arg))
    } else {
        let sequence_id = state.next_sequence_id;
        PublishDecision::Accept { sequence_id, reply: publish_object_success(user_arg, sequence_id) }
    }
}

/// Settles an accepted publish request once its success reply has been
/// sent. The allocated sequence id is consumed either way — ids are never
/// reused, even by a request whose reply could not be delivered — but the
/// object is registered only when the reply went through; an abandoned
/// request stores nothing. A registered id is larger than every id ever
/// registered, in this or any other task group.
pub fn publish_commit(state: &mut State, object: PMBusObject, task_group: u64, reply_sent_ok: bool)
    requires
        old(state).wf(),
        old(state).next_sequence_id < u64::MAX,
    ensures
        final(state).wf(),
        final(state).next_sequence_id == old(state).next_sequence_id + 1,
        !reply_sent_ok ==> {
            &&& final(state).properties == old(state).properties
            &&& final(state).task_groups == old(state).task_groups
            &&& final(state).main_port == old(state).main_port
        },
        reply_sent_ok ==> {
            &&& final(state).properties@.len() == old(state).properties@.len() + 1
            &&& forall|i: int|
                0 <= i < old(state).properties@.len() ==> final(state).properties@[i] == old(
                    state,
                ).properties@[i]
            &&& final(state).properties@.last().sequence_id == old(state).next_sequence_id
            &&& final(state).properties@.last().name@ == object.name@
            &&& final(state).properties@.last().properties == object.properties
            &&& final(state).properties@.last().handle_port == object.handle_port
            &&& final(state).properties@.last().task_group == task_group
            &&& forall|i: int|
                0 <= i < old(state).properties@.len() ==> old(state).properties@[i].sequence_id
                    < final(state).properties@.last().sequence_id
            &&& exists|g: int|
                0 <= g < final(state).task_groups@.len() && final(state).task_groups@[g].id
                    == task_group && final(state).task_groups@[g].sequences@.last() == old(
                    state,
                ).next_sequence_id
            &&& forall|g2: int|
                0 <= g2 < old(state).task_groups@.len() && old(state).task_groups@[g2].id
                    != task_group ==> final(state).task_groups@[g2] == old(state).task_groups@[g2]
            &&& final(state).main_port == old(state).main_port
        },
{
    let id = state.next_sequence_id;
    if !reply_sent_ok {
        state.next_sequence_id = id + 1;
        return ;
    }
    let g = create_find_task_group(task_group, state);
    let ghost pre = *state;
    let mut grp = state.task_groups.remove(g);
    grp.sequences.push(id);
    state.task_groups.insert(g, grp);
    proof {
        assert forall|x: int|
            0 <= x < state.task_groups@.len() && x != g implies state.task_groups@[x]
            == pre.task_groups@[x] by {
            if x < g {
                assert(pre.task_groups@.remove(g as int)[x] == pre.task_groups@[x]);
            } else {
                assert(pre.task_groups@.remove(g as int)[x - 1] == pre.task_groups@[x]);
            }
        };
        assert(state.task_groups@[g as int].id == task_group);
        assert(state.task_groups@[g as int].sequences@ == pre.task_groups@[g as int].sequences@.push(
            id,
        ));
    }
    let info = ObjectInfo {
        sequence_id: id,
        properties: object.properties,
        name: object.name,
        task_group,
        handle_port: object.handle_port,
    };
    state.properties.push(info);
    state.next_sequence_id = id + 1;
    proof {
        assert(state.properties@.last().sequence_id == id);
        assert forall|g2: int, i: int, j: int|
            0 <= g2 < state.task_groups@.len() && 0 <= i < j
                < state.task_groups@[g2].sequences@.len() implies state.task_groups@[g2].sequences@[i]
            < state.task_groups@[g2].sequences@[j] by {
            if g2 == g {
                let s = pre.task_groups@[g as int].sequences@;
                if j < s.len() {
                    assert(state.task_groups@[g2].sequences@[i] == s[i]);
                    assert(state.task_groups@[g2].sequences@[j] == s[j]);
                } else {
                    if i < s.len() {
                        assert(state.task_groups@[g2].sequences@[i] == s[i]);
                        assert(s[i] < pre.next_sequence_id);
                    }
                }
            }
        };
        assert forall|g2: int, i: int|
            0 <= g2 < state.task_groups@.len() && 0 <= i
                < state.task_groups@[g2].sequences@.len() implies state.task_groups@[g2].sequences@[i]
            < state.next_sequence_id by {
            if g2 == g {
                let s = pre.task_groups@[g as int].sequences@;
                if i < s.len() {
                    assert(state.task_groups@[g2].sequences@[i] == s[i]);
                }
            }
        };
    }
    new_object_stuff(id, state);
}

/// Sequence ids in the registry are pairwise distinct and strictly
/// increasing in registration order: once handed out, an id is never
/// issued again, whichever task group publishes.
pub proof fn lemma_sequence_ids_strictly_increasing(s: State)
    requires
        s.wf(),
    ensures
        forall|i: int, j: int|
            0 <= i < j < s.properties@.len() ==> s.properties@[i].sequence_id
                < s.properties@[j].sequence_id,
        forall|i: int, j: int|
            0 <= i < s.properties@.len() && 0 <= j < s.properties@.len() && i != j
                ==> s.properties@[i].sequence_id != s.properties@[j].sequence_id,
{
}

} // verus!
