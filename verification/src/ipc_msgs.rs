use vstd::prelude::*;
use crate::bytes::{le_bytes, u32_at, u64_at};
use crate::ipc::Port;

verus! {

/// Every message starts with this header: a `u32` type tag.
pub struct IPCGenericMsg {
    pub msg_type: u32,
}

/// Type tag of a publish-object request.
pub const IPC_BUS_PUBLISH_OBJECT_NUM: u32 = 0x1a0;

/// Type tag of a publish-object reply.
pub const IPC_BUS_PUBLISH_OBJECT_REPLY_NUM: u32 = 0x1b0;

/// A decoded publish-object request: header fields and the opaque
/// serialized-object tail, still to be decoded by the object codec.
pub struct IPCBusPublishObject {
    pub flags: u32,
    pub reply_port: Port,
    pub user_arg: u64,
    pub object_data: Vec<u8>,
}

/// A publish-object reply: a fixed 32-byte record. `result` is zero on
/// success and a negated error code on failure; `user_arg` echoes the
/// request for correlation; `sequence_number` is meaningful only when
/// `result` is zero.
pub struct IPCBusPublishObjectReply {
    pub msg_type: u32,
    pub flags: u32,
    pub result: i32,
    pub reserved: u32,
    pub user_arg: u64,
    pub sequence_number: u64,
}

/// The unsigned 32-bit word that carries `x` on the wire, in two's
/// complement.
pub open spec fn i32_words(x: i32) -> int {
    if x >= 0 {
        x as int
    } else {
        x as int + 0x1_0000_0000
    }
}

/// The exact 32-byte wire form of a reply record.
pub open spec fn spec_reply_bytes(r: IPCBusPublishObjectReply) -> Seq<u8> {
    le_bytes(r.msg_type as int, 4) + le_bytes(r.flags as int, 4) + le_bytes(i32_words(r.result), 4)
        + le_bytes(r.reserved as int, 4) + le_bytes(r.user_arg as int, 8) + le_bytes(
        r.sequence_number as int,
        8,
    )
}

impl IPCBusPublishObjectReply {
    /// A fresh reply: correct type tag, every other field zero-initialized.
    pub fn new() -> (r: IPCBusPublishObjectReply)
        ensures
            r.msg_type == IPC_BUS_PUBLISH_OBJECT_REPLY_NUM,
            r.flags == 0,
            r.result == 0,
            r.reserved == 0,
            r.user_arg == 0,
            r.sequence_number == 0,
    {
        IPCBusPublishObjectReply {
            msg_type: IPC_BUS_PUBLISH_OBJECT_REPLY_NUM,
            flags: 0,
            result: 0,
            reserved: 0,
            user_arg: 0,
            sequence_number: 0,
        }
    }
}

/// A payload whose wire form is pinned down byte for byte.
pub trait Serializable {
    /// The exact bytes this value puts on the wire.
    spec fn wire_bytes(&self) -> Seq<u8>;

    /// Produces the wire form.
    fn serialize(&self) -> (r: Vec<u8>)
        ensures
            r@ == self.wire_bytes(),
    ;
}

impl Serializable for IPCBusPublishObjectReply {
    open spec fn wire_bytes(&self) -> Seq<u8> {
        spec_reply_bytes(*self)
    }

    fn serialize(&self) -> (r: Vec<u8>)
        ensures
            r@ == self.wire_bytes(),
    {
        let mut v: Vec<u8> = Vec::new();
        proof {
            crate::bytes::lemma_pow256_values();
        }
        crate::bytes::push_le(&mut v, self.msg_type as u64, 4);
        crate::bytes::push_le(&mut v, self.flags as u64, 4);
        let result_word: u32 = if self.result >= 0 {
            self.result as u32
        } else {
            ((self.result as i64) + 0x1_0000_0000) as u32
        };
        crate::bytes::push_le(&mut v, result_word as u64, 4);
        crate::bytes::push_le(&mut v, self.reserved as u64, 4);
        crate::bytes::push_le(&mut v, self.user_arg, 8);
        crate::bytes::push_le(&mut v, self.sequence_number, 8);
        proof {
            assert(v@ =~= spec_reply_bytes(*self));
        }
        v
    }
}

/// The recognized shapes of an inbound message.
pub enum Message {
    IPCBusPublishObject(IPCBusPublishObject),
    Unknown,
}

impl crate::ipc::Message {
    /// Discriminates an inbound message by its leading type tag and decodes
    /// the shapes the bus understands. Unrecognized tags and payloads too
    /// short for their tag's fixed header come back as `Unknown`: foreign
    /// or malformed traffic is never an error here.
    pub fn deserialize(&self) -> (r: Message)
        ensures
            match r {
                Message::IPCBusPublishObject(o) => {
                    &&& self.data@.len() >= 24
                    &&& u32_at(self.data@, 0) == IPC_BUS_PUBLISH_OBJECT_NUM
                    &&& o.flags as int == u32_at(self.data@, 4)
                    &&& o.reply_port as int == u64_at(self.data@, 8)
                    &&& o.user_arg as int == u64_at(self.data@, 16)
                    &&& o.object_data@ == self.data@.skip(24)
                },
                Message::Unknown => self.data@.len() < 24 || u32_at(self.data@, 0)
                    != IPC_BUS_PUBLISH_OBJECT_NUM,
            },
    {
        let data = self.data.as_slice();
        if self.data.len() < 4 {
            return Message::Unknown;
        }
        let id = crate::bytes::read_u32_le(data, 0);
        if id == IPC_BUS_PUBLISH_OBJECT_NUM {
            if self.data.len() < 24 {
                return Message::Unknown;
            }
            let tail = crate::bytes::copy_range(data, 24, self.data.len());
            proof {
                assert(self.data@.subrange(24, self.data@.len() as int) =~= self.data@.skip(24));
            }
            Message::IPCBusPublishObject(
                IPCBusPublishObject {
                    flags: crate::bytes::read_u32_le(data, 4),
                    reply_port: crate::bytes::read_u64_le(data, 8),
                    user_arg: crate::bytes::read_u64_le(data, 16),
                    object_data: tail,
                },
            )
        } else {
            Message::Unknown
        }
    }
}

} // verus!
