use vstd::prelude::*;

verus! {

/// A transferable kernel memory-object grant. The wrapped identifier is
/// never zero; holding a value is exclusive ownership of the grant, and
/// the holder owes the kernel exactly one release for it unless ownership
/// is transferred away (see `ipc::finish_send`).
pub struct MemoryObject(u64);

impl MemoryObject {
    /// The grant identifier, as specifications see it.
    pub closed spec fn id_spec(self) -> u64 {
        self.0
    }

    /// A grant identifier is never zero.
    pub open spec fn wf(self) -> bool {
        self.id_spec() != 0
    }

    /// Interprets the grant field of a received message: a zero identifier
    /// means no grant was attached.
    pub fn from_message(mem_object_id: u64) -> (r: Option<MemoryObject>)
        ensures
            match r {
                Some(m) => mem_object_id != 0 && m.id_spec() == mem_object_id,
                None => mem_object_id == 0,
            },
    {
        if mem_object_id == 0 {
            None
        } else {
            Some(MemoryObject(mem_object_id))
        }
    }

    /// The grant identifier.
    pub fn id(&self) -> (r: u64)
        ensures
            r == self.id_spec(),
            r != 0 <==> self.wf(),
    {
        self.0
    }
}

} // verus!
