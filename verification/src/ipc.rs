use vstd::prelude::*;
use crate::bytes::u32_at;
use crate::error::{spec_from_errno, Error};
use crate::mem_object::MemoryObject;
use crate::system::ResultT;

verus! {

/// A kernel port identifier.
pub type Port = u64;

/// A kernel right identifier.
pub type Right = u64;

/// The receiving end of a kernel message queue, held by its identifier.
/// Creating and deleting the kernel-side port are traps performed by the
/// surrounding process; this type tracks the identifier they agreed on.
pub struct IPCPort {
    port: Port,
}

impl IPCPort {
    /// Wraps an already-created kernel port identifier.
    pub fn from_id(port: Port) -> (r: IPCPort)
        ensures
            r.id_spec() == port,
    {
        IPCPort { port }
    }

    /// The port identifier, as specifications see it.
    pub closed spec fn id_spec(self) -> Port {
        self.port
    }

    /// The port identifier.
    pub fn get_id(&self) -> (r: Port)
        ensures
            r == self.id_spec(),
    {
        self.port
    }
}

/// An inbound message: the sender's identifier, the payload bytes, and an
/// optional memory-object grant that arrived attached to it.
pub struct Message {
    pub data: Vec<u8>,
    pub sender: u64,
    pub object: Option<MemoryObject>,
}

impl Message {
    /// The leading `u32` type tag of the payload, or `None` when the payload
    /// is shorter than the tag itself.
    pub fn get_known_id(&self) -> (r: Option<u32>)
        ensures
            match r {
                Some(id) => self.data@.len() >= 4 && id as int == u32_at(self.data@, 0),
                None => self.data@.len() < 4,
            },
    {
        if self.data.len() < 4 {
            None
        } else {
            Some(crate::bytes::read_u32_le(self.data.as_slice(), 0))
        }
    }
}

/// A send endpoint that may be duplicated and used any number of times.
pub struct SendManyRight(Right);

/// A send endpoint good for a single message.
pub struct SendOnceRight(Right);

/// The receive-side companion handle minted together with a send right.
pub struct RecieveRight(Right);

impl SendManyRight {
    /// Wraps a kernel-issued right identifier.
    pub fn new(id: Right) -> (r: Self)
        ensures
            r.id_spec() == id,
    {
        Self(id)
    }

    /// The right identifier, as specifications see it.
    pub closed spec fn id_spec(self) -> Right {
        self.0
    }

    /// The right identifier.
    pub fn id(&self) -> (r: Right)
        ensures
            r == self.id_spec(),
    {
        self.0
    }
}

impl SendOnceRight {
    /// Wraps a kernel-issued right identifier.
    pub fn new(id: Right) -> (r: Self)
        ensures
            r.id_spec() == id,
    {
        Self(id)
    }

    /// The right identifier, as specifications see it.
    pub closed spec fn id_spec(self) -> Right {
        self.0
    }

    /// The right identifier.
    pub fn id(&self) -> (r: Right)
        ensures
            r == self.id_spec(),
    {
        self.0
    }
}

impl RecieveRight {
    /// Wraps a kernel-issued right identifier.
    pub fn new(id: Right) -> (r: Self)
        ensures
            r.id_spec() == id,
    {
        Self(id)
    }

    /// The right identifier, as specifications see it.
    pub closed spec fn id_spec(self) -> Right {
        self.0
    }

    /// The right identifier.
    pub fn id(&self) -> (r: Right)
        ensures
            r == self.id_spec(),
    {
        self.0
    }
}

/// Settles ownership of an attached grant once the kernel has reported the
/// outcome of a send.
///
/// On success the grant was transferred to the receiver: it is consumed here
/// and nothing is handed back, so the sender no longer owes a release for it.
/// On failure no transfer occurred: the grant comes back to the caller, who
/// still owes the kernel its release.
pub fn finish_send(status: ResultT, grant: Option<MemoryObject>) -> (r: (Result<(), Error>, Option<
    MemoryObject,
>))
    ensures
        status.0 == 0 ==> r.0 == Ok::<(), Error>(()) && r.1 is None,
        status.0 != 0 ==> r.1 == grant && match r.0 {
            Ok(_) => false,
            Err(e) => e.code() == spec_from_errno(-(status.0 as int)) && e.wf(),
        },
{
    match status.result() {
        Ok(()) => (Ok(()), None),
        Err(e) => (Err(e), grant),
    }
}

/// Settles ownership of a send-many right once the kernel has reported
/// the outcome of registering a discoverable name for it.
///
/// On success the right now belongs to the name registry: it is consumed
/// here, and the holder must not release it separately. On failure it
/// comes back to the caller unconsumed.
pub fn finish_name(status: ResultT, right: SendManyRight) -> (r: (Result<(), Error>, Option<
    SendManyRight,
>))
    ensures
        status.0 == 0 ==> r.0 == Ok::<(), Error>(()) && r.1 is None,
        status.0 != 0 ==> match (r.0, r.1) {
            (Err(e), Some(rt)) => e.code() == spec_from_errno(-(status.0 as int)) && e.wf()
                && rt.id_spec() == right.id_spec(),
            _ => false,
        },
{
    match status.result() {
        Ok(()) => (Ok(()), None),
        Err(e) => (Err(e), Some(right)),
    }
}

} // verus!
